//! Subscriptions. The engine executes queries only: a subscription is
//! answered with an error.
use vstd::prelude::*;
use crate::ast::Document;
use crate::error::{ErrorModel, ExecutionError};
use crate::resolver::Resolver;
use crate::schema::SchemaDocument;
use crate::util::models;
use crate::value::Value;

verus! {

/// Options available for subscription execution.
pub struct SubscriptionExecutionOptions<R: Resolver> {
    /// The resolver to use.
    pub resolver: R,
}

/// A subscription: a document, the schema to execute it against and the
/// values of its variables.
pub struct Subscription {
    pub document: Document,
    pub schema: SchemaDocument,
    pub variables: Option<Vec<(String, Value)>>,
}

/// The result of starting a subscription: whether a stream of query results
/// was opened, and the errors raised.
pub struct SubscriptionResult {
    pub streaming: bool,
    pub errors: Vec<ExecutionError>,
}

impl SubscriptionResult {
    /// Creates a result from its parts.
    pub fn new(streaming: bool, errors: Vec<ExecutionError>) -> (result: SubscriptionResult)
        ensures
            result.streaming == streaming,
            result.errors == errors,
    {
        SubscriptionResult { streaming, errors }
    }

    /// Adds an error after those of the result.
    pub fn add_error(&mut self, e: ExecutionError)
        ensures
            final(self).errors@ == old(self).errors@.push(e),
            final(self).streaming == old(self).streaming,
    {
        self.errors.push(e);
    }

    /// The result of a subscription that failed: no stream, and the one error.
    pub fn from(e: ExecutionError) -> (result: SubscriptionResult)
        ensures
            result.is_failure(e@),
    {
        let mut errors: Vec<ExecutionError> = Vec::new();
        errors.push(e);
        assert(models(errors@) =~= seq![e@]);
        SubscriptionResult::new(false, errors)
    }

    /// Whether the result holds no stream and `e` as the only error.
    pub open spec fn is_failure(self, e: ErrorModel) -> bool {
        !self.streaming && models(self.errors@) == seq![e]
    }
}

/// The text of the error that answers every subscription.
pub open spec fn subscription_message() -> Seq<char> {
    "What a pity"@
}

/// Executes a subscription: none is supported, and the result says so.
pub fn execute_subscription<R: Resolver>(
    _subscription: Subscription,
    _options: SubscriptionExecutionOptions<R>,
) -> (result: SubscriptionResult)
    ensures
        result.is_failure(ErrorModel::NotSupported(subscription_message())),
{
    SubscriptionResult::from(ExecutionError::NotSupported("What a pity".to_owned()))
}

} // verus!
