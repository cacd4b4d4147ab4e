//! The HTTP service: which request is answered how.
use vstd::prelude::*;

verus! {

/// What the service does with a request.
#[derive(Clone, Copy, Debug, PartialEq, Eq, Structural)]
pub enum Route {
    /// Serve the page of the query editor.
    Editor,
    /// Serve the style sheet of the query editor.
    EditorStyle,
    /// Serve the script of the query editor.
    EditorScript,
    /// Execute the query in the body.
    Query,
    /// Answer which features the endpoint offers.
    Options,
    /// Answer that there is nothing here.
    NotFound,
}

/// Where a request with this method and path goes: `GET` of `/`,
/// `/graphiql.css` and `/graphiql.min.js` to the query editor, `POST` and
/// `OPTIONS` of `/graphql` to the endpoint, anything else nowhere.
pub open spec fn route_of(method: Seq<char>, path: Seq<char>) -> Route {
    if method == "GET"@ && path == "/"@ {
        Route::Editor
    } else if method == "GET"@ && path == "/graphiql.css"@ {
        Route::EditorStyle
    } else if method == "GET"@ && path == "/graphiql.min.js"@ {
        Route::EditorScript
    } else if method == "POST"@ && path == "/graphql"@ {
        Route::Query
    } else if method == "OPTIONS"@ && path == "/graphql"@ {
        Route::Options
    } else {
        Route::NotFound
    }
}

/// Whether two texts read the same.
fn same_text(a: &str, b: &str) -> (same: bool)
    ensures
        same == (a@ == b@),
{
    a.to_owned() == b.to_owned()
}

/// Decides where a request with this method and path goes.
pub fn route(method: &str, path: &str) -> (chosen: Route)
    ensures
        chosen == route_of(method@, path@),
{
    if same_text(method, "GET") && same_text(path, "/") {
        Route::Editor
    } else if same_text(method, "GET") && same_text(path, "/graphiql.css") {
        Route::EditorStyle
    } else if same_text(method, "GET") && same_text(path, "/graphiql.min.js") {
        Route::EditorScript
    } else if same_text(method, "POST") && same_text(path, "/graphql") {
        Route::Query
    } else if same_text(method, "OPTIONS") && same_text(path, "/graphql") {
        Route::Options
    } else {
        Route::NotFound
    }
}

/// An answer that the service gives without executing anything: its status,
/// its headers and its body.
pub struct Answer {
    pub status: u16,
    pub headers: Vec<(&'static str, &'static str)>,
    pub body: &'static str,
}

/// The answer to a request for the features of the endpoint: any origin may
/// ask, and may send a content type.
pub fn options_answer() -> (answer: Answer)
    ensures
        answer.status == 200,
        answer.headers@.len() == 2,
        answer.headers@[0].0@ == "Access-Control-Allow-Origin"@ && answer.headers@[0].1@ == "*"@,
        answer.headers@[1].0@ == "Access-Control-Allow-Headers"@ && answer.headers@[1].1@
            == "Content-Type"@,
        answer.body@ == ""@,
{
    let mut headers: Vec<(&'static str, &'static str)> = Vec::new();
    headers.push(("Access-Control-Allow-Origin", "*"));
    headers.push(("Access-Control-Allow-Headers", "Content-Type"));
    Answer { status: 200, headers, body: "" }
}

/// The answer to a request that goes nowhere.
pub fn not_found_answer() -> (answer: Answer)
    ensures
        answer.status == 404,
        answer.headers@.len() == 0,
        answer.body@ == "Not found"@,
{
    Answer { status: 404, headers: Vec::new(), body: "Not found" }
}

} // verus!
