use graphql_engine::components::{EthereumContractStateError, MockServeError, Schema, SchemaEvent};
use graphql_engine::connection::{Action, Event, Operations, OutgoingMessage};
use graphql_engine::error::GraphQLError;
use graphql_engine::parse_error::GraphQLParseError;
use graphql_engine::position::Position;
use graphql_engine::query::QueryResult;
use graphql_engine::schema::SchemaDocument;
use graphql_engine::service::{not_found_answer, options_answer, route, Route};
use graphql_engine::value::Value;

fn start(id: &str, known: bool, parse_error: Option<&str>) -> Event {
    Event::Start {
        id: id.to_string(),
        query: "{ name }".to_string(),
        subgraph: "books".to_string(),
        known,
        parse_error: parse_error.map(|e| e.to_string()),
    }
}

fn refused(action: Action) -> (String, String) {
    match action {
        Action::Refuse { id, reason } => (id, reason),
        _ => panic!("the request was not refused"),
    }
}

#[test]
fn connection_is_acknowledged_and_terminated() {
    let mut operations = Operations::new();
    assert!(matches!(operations.handle(Event::ConnectionInit), Action::Acknowledge));
    assert!(matches!(operations.handle(Event::ConnectionTerminate), Action::Terminate));
    assert_eq!(operations.running.len(), 0);
}

#[test]
fn operation_is_started_once_and_stopped_once() {
    let mut operations = Operations::new();
    match operations.handle(start("1", true, None)) {
        Action::Run { id } => assert_eq!(id, "1"),
        _ => panic!("the operation was not run"),
    }
    assert_eq!(operations.running, vec!["1".to_string()]);
    assert_eq!(
        refused(operations.handle(start("1", true, None))),
        ("1".to_string(), "Operation with ID already started: 1".to_string())
    );
    match operations.handle(start("2", true, None)) {
        Action::Run { id } => assert_eq!(id, "2"),
        _ => panic!("the operation was not run"),
    }
    match operations.handle(Event::Stop { id: "1".to_string() }) {
        Action::Complete { id } => assert_eq!(id, "1"),
        _ => panic!("the operation was not completed"),
    }
    assert_eq!(operations.running, vec!["2".to_string()]);
    assert_eq!(
        refused(operations.handle(Event::Stop { id: "1".to_string() })),
        ("1".to_string(), "Unknown operation ID: 1".to_string())
    );
}

#[test]
fn start_is_refused_for_an_unknown_deployment_or_a_bad_query() {
    let mut operations = Operations::new();
    assert_eq!(
        refused(operations.handle(start("1", false, Some("no")))),
        ("1".to_string(), "Unknown subgraph name or ID: books".to_string())
    );
    assert_eq!(
        refused(operations.handle(start("1", true, Some("unexpected end")))),
        ("1".to_string(), "Invalid query: { name }: unexpected end".to_string())
    );
    assert_eq!(operations.running.len(), 0);
}

#[test]
fn outgoing_messages_carry_their_parts() {
    match OutgoingMessage::from_error_string("7".to_string(), "failed".to_string()) {
        OutgoingMessage::Error { id, payload } => {
            assert_eq!(id, "7");
            assert_eq!(payload, "failed");
        }
        _ => panic!("not an error message"),
    }
    let result = QueryResult::new(Value::Int(1), vec![]);
    match OutgoingMessage::from_query_result("8".to_string(), result) {
        OutgoingMessage::Data { id, payload } => {
            assert_eq!(id, "8");
            assert_eq!(payload.value, Value::Int(1));
        }
        _ => panic!("not a data message"),
    }
}

#[test]
fn requests_are_routed_by_method_and_path() {
    assert_eq!(route("GET", "/"), Route::Editor);
    assert_eq!(route("GET", "/graphiql.css"), Route::EditorStyle);
    assert_eq!(route("GET", "/graphiql.min.js"), Route::EditorScript);
    assert_eq!(route("POST", "/graphql"), Route::Query);
    assert_eq!(route("OPTIONS", "/graphql"), Route::Options);
    assert_eq!(route("GET", "/graphql"), Route::NotFound);
    assert_eq!(route("POST", "/"), Route::NotFound);
    assert_eq!(route("DELETE", "/graphql"), Route::NotFound);
}

#[test]
fn fixed_answers_have_their_status_and_headers() {
    let options = options_answer();
    assert_eq!(options.status, 200);
    assert_eq!(
        options.headers,
        vec![
            ("Access-Control-Allow-Origin", "*"),
            ("Access-Control-Allow-Headers", "Content-Type")
        ]
    );
    assert_eq!(options.body, "");
    let missing = not_found_answer();
    assert_eq!(missing.status, 404);
    assert_eq!(missing.headers.len(), 0);
    assert_eq!(missing.body, "Not found");
}

/// Reads a parse error's text with the operations of the standard library.
fn read_with_std(text: &str) -> Option<(usize, usize, String)> {
    let inner = text.replace("query parse error:", "");
    let inner = inner.trim();
    let parts: Vec<&str> = inner.splitn(2, "\n").collect();
    let colon = parts[0].rfind(":")?;
    let (a, b) = parts[0].split_at(colon);
    let line = a.matches(char::is_numeric).collect::<String>().parse().ok()?;
    let column = b.matches(char::is_numeric).collect::<String>().parse().ok()?;
    Some((line, column, parts.get(1)?.to_string()))
}

fn read(text: &str) -> Option<(usize, usize, String)> {
    GraphQLParseError::from_text(text).map(|e| {
        assert_eq!(e.locations.len(), 1);
        assert_eq!(e.locations(), e.locations);
        assert_eq!(e.message(), e.message);
        (e.locations[0].line, e.locations[0].column, e.message)
    })
}

#[test]
fn place_and_message_are_read_out_of_a_parse_error_text() {
    let text = "query parse error: Parse error at 3:14\nUnexpected `}`\nExpected `Name`\n";
    assert_eq!(
        read(text),
        Some((3, 14, "Unexpected `}`\nExpected `Name`".to_string()))
    );
    assert_eq!(read(text), read_with_std(text));
}

#[test]
fn parse_error_texts_are_read_as_the_standard_library_reads_them() {
    let texts = [
        "query parse error: Parse error at 1:1\nUnexpected end of input\n",
        "  \t query parse error: at 12:7\n\nrest  \n ",
        "Parse error at 1:2\n",
        "query parse error:query parse error: at line 4 and 5:col 6 7\nx",
        "a\u{a0}10:2\u{2003}\nmessage\u{a0}",
        "at 007:0010\nleading zeros",
        "quequery parse error:ry parse error: 1:2\nkept phrase",
        "1:2\nquery parse error: in the message",
        "only one line 1:2",
        "no colon here\nmessage",
        "no digits: here\nmessage",
        "1:\nno column",
        ":2\nno line",
        "\u{663}:1\nother digits",
        "1:\u{b2}\nsuperscript",
        "99999999999999999999999999:1\ntoo large",
        "18446744073709551615:18446744073709551615\nlargest",
        "18446744073709551616:1\none more",
        "",
        "\n",
        ":\n",
        "query parse error:",
    ];
    for text in texts.iter() {
        assert_eq!(read(text), read_with_std(text), "text: {:?}", text);
    }
    assert_eq!(read("18446744073709551616:1\none more"), None);
    assert_eq!(read("only one line 1:2"), None);
    assert_eq!(read("1:2\n"), None);
    assert_eq!(read(" 1:2\nmessage "), Some((1, 2, "message".to_string())));
}

#[test]
fn parse_error_of_the_parser_is_read() {
    let error = graphql_parser::parse_query("{ name").unwrap_err();
    let text = format!("{}", error);
    let expected = read_with_std(&text);
    assert!(expected.is_some());
    let read = GraphQLParseError::from_parse_error(error).map(|e| {
        (e.locations[0].line, e.locations[0].column, e.message)
    });
    assert_eq!(read, expected);
    let error = graphql_parser::parse_query("query { a(b: ) }").unwrap_err();
    let text = format!("{}", error);
    let from = GraphQLParseError::from(error);
    assert_eq!(
        Some((from.locations[0].line, from.locations[0].column, from.message)),
        read_with_std(&text)
    );
}

#[test]
fn plain_components_hold_their_data() {
    assert_eq!(MockServeError.description(), "Mock serve error");
    assert_eq!(EthereumContractStateError::Failed, EthereumContractStateError::Failed);
    let added = SchemaEvent::SchemaAdded(Schema {
        id: "books".to_string(),
        document: SchemaDocument { definitions: vec![] },
    });
    assert_ne!(added, SchemaEvent::SchemaRemoved("books".to_string(), "1".to_string()));
    assert_eq!(Position::new(1, 2), Position { line: 1, column: 2 });
}

#[test]
fn white_space_is_what_the_standard_library_takes_for_it() {
    for code in 0..=0x10FFFFu32 {
        if let Some(c) = char::from_u32(code) {
            assert_eq!(
                graphql_engine::parse_error::is_white_space(c),
                c.is_whitespace(),
                "character {:x}",
                code
            );
        }
    }
}
