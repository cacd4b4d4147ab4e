//! A GraphQL query-execution engine.
//!
//! The engine walks a parsed query document against a parsed schema and builds
//! a response tree. All data access is delegated to a [`Resolver`]; the engine
//! itself groups fields, expands fragments, coerces arguments and completes
//! resolved values against their declared types.
//!
//! The result of an execution is stated over the calls that were made to the
//! resolvers: see [`semantics`] for what an execution computes and [`laws`]
//! for what holds of every execution.
//!
//! The modules, from the data to the entry point:
//!
//! - [`value`], [`schema`], [`ast`], [`position`], [`error`]: the data that
//!   the engine works on, each type with its model;
//! - [`coercion`]: literals against declared types;
//! - [`fields`], [`groups`], [`nesting`]: the collection of fields into
//!   groups, and how deep the fields of a document nest;
//! - [`resolver`], [`execution`], [`resolution`], [`completion`]: the state
//!   of an execution and its steps;
//! - [`introspection`], [`describe`]: the schema of the meta-fields and the
//!   resolver that answers them;
//! - [`query`], [`subscription`]: the entry points;
//! - [`semantics`], [`depth`], [`laws`]: what is computed, and what holds of
//!   it;
//! - [`parse_error`], [`connection`], [`service`], [`components`]: what the
//!   transports around the engine decide.
pub mod position;
pub mod util;
pub mod value;
pub mod schema;
pub mod ast;
pub mod error;
pub mod coercion;
pub mod groups;
pub mod fields;
pub mod nesting;
pub mod resolver;
pub mod execution;
pub mod semantics;
pub mod resolution;
pub mod depth;
pub mod completion;
pub mod introspection;
pub mod describe;
pub mod query;
pub mod subscription;
pub mod components;
pub mod parse_error;
pub mod connection;
pub mod service;
pub mod laws;

pub use describe::IntrospectionResolver;
pub use components::{EthereumContractStateError, MockServeError, Schema, SchemaEvent};
pub use error::{ExecutionError, GraphQLError};
pub use execution::Execution;
pub use parse_error::GraphQLParseError;
pub use position::Position;
pub use query::{execute_query, Query, QueryOptions, QueryResult};
pub use resolver::Resolver;
pub use subscription::{
    execute_subscription, Subscription, SubscriptionExecutionOptions, SubscriptionResult,
};
pub use value::{Value, ValueModel};
