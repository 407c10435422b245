use sophon_sdk::json::{Json, RawJson};
use sophon_sdk::mcp::outcome::{
    parse_input_required, parse_mcp_operation_outcome, parse_task, parse_task_status,
    validate_mcp_continuation, McpContinuation, McpInputRequestKind, McpOperationOutcome,
    McpTaskStatus,
};
use sophon_sdk::mcp::servers::{
    parse_mcp_authentication_state, parse_mcp_servers, parse_mcp_subscription_end,
    parse_resource_result, parse_tool_result, McpAuthenticationState, McpContent, McpServerSource,
    McpSubscriptionEnd, McpTransportKind,
};
use sophon_sdk::mcp::{notification_message, valid_bounded_line};
use sophon_sdk::session::{Error, SessionId};

fn json(text: &str) -> Json {
    Json::parse(text).unwrap()
}

fn raw(text: &str) -> RawJson {
    RawJson::parse(text).unwrap()
}

fn session() -> SessionId {
    SessionId::from_stored("s")
}

#[test]
fn catalogs_are_read_with_defaults() {
    let servers =
        parse_mcp_servers(&json("{\"servers\":[{\"name\":\"tools\"},{}]}")).unwrap();
    assert_eq!(servers.len(), 2);
    assert_eq!(servers[0].name, "tools");
    assert_eq!(servers[0].source, McpServerSource::Unknown);
    assert_eq!(servers[0].transport, McpTransportKind::Unknown);
    assert!(servers[0].tools.is_empty());
    assert_eq!(
        parse_mcp_servers(&json("{}")).unwrap_err(),
        Error::Operation("invalid MCP catalog response".to_string())
    );
}

#[test]
fn tool_results_keep_their_content() {
    let result = parse_tool_result(&json(
        "{\"content\":[{\"type\":\"text\",\"text\":\"hi\"},{\"type\":\"novel\"}],\"isError\":true}",
    ))
    .unwrap();
    assert_eq!(result.content.len(), 2);
    assert!(matches!(&result.content[0], McpContent::Text { text, .. } if text == "hi"));
    assert_eq!(result.is_error, Some(true));
    assert!(parse_tool_result(&json("{}")).is_err());
    let read = parse_resource_result(&json("{\"contents\":[{\"uri\":\"u\",\"text\":\"t\"}]}"))
        .unwrap();
    assert_eq!(read.contents[0].text, Some("t".to_string()));
    assert!(parse_resource_result(&json("[]")).is_err());
}

#[test]
fn subscription_ends_and_authentication_states_are_named() {
    assert_eq!(
        parse_mcp_authentication_state("authenticated"),
        McpAuthenticationState::Authenticated
    );
    assert_eq!(
        parse_mcp_authentication_state("odd"),
        McpAuthenticationState::Unknown("odd".to_string())
    );
    assert_eq!(parse_mcp_subscription_end(None), Ok(McpSubscriptionEnd::Abrupt));
    assert_eq!(
        parse_mcp_subscription_end(Some(&json("{\"reason\":\"graceful\"}"))),
        Ok(McpSubscriptionEnd::Graceful)
    );
    assert_eq!(
        parse_mcp_subscription_end(Some(&json("{\"reason\":\"lagged\",\"capacity\":8}"))),
        Ok(McpSubscriptionEnd::Lagged { capacity: 8 })
    );
    assert!(parse_mcp_subscription_end(Some(&json("{\"reason\":\"lagged\"}"))).is_err());
    assert!(parse_mcp_subscription_end(Some(&json("{\"reason\":\"error\"}"))).is_err());
}

#[test]
fn input_requirements_are_bounded_and_named() {
    let input = parse_input_required(&raw(
        "{\"inputRequests\":{\"r1\":{\"method\":\"roots/list\"}},\"requestState\":\"st\"}",
    ))
    .unwrap();
    assert_eq!(input.requests.len(), 1);
    assert_eq!(input.requests[0].id, "r1");
    assert_eq!(input.requests[0].kind, McpInputRequestKind::Roots);
    assert_eq!(input.request_state, Some("st".to_string()));
    assert!(parse_input_required(&raw("{}")).is_err());
    assert!(parse_input_required(&raw("{\"inputRequests\":[]}")).is_err());
    assert!(parse_input_required(&raw("{\"inputRequests\":{\"r1\":{}}}")).is_err());
    assert_eq!(
        parse_input_required(&raw("{\"inputRequests\":{\"r1\":{\"method\":\"other\"}}}"))
            .unwrap_err(),
        Error::Operation("unsupported MCP input request method 'other'".to_string())
    );
    assert!(parse_input_required(&raw("{\"inputRequests\":{},\"requestState\":5}")).is_err());
}

#[test]
fn tasks_are_read_with_their_identity() {
    let text = "{\"taskId\":\"t\",\"status\":\"working\",\"createdAt\":\"now\",\"lastUpdatedAt\":\"now\",\"ttlMs\":5}";
    let task = parse_task(&session(), "tools", 3, &raw(text)).unwrap();
    assert_eq!(task.status, McpTaskStatus::Working);
    assert_eq!(task.handle.task_id, "t");
    assert_eq!(task.handle.client_id, 3);
    assert_eq!(task.ttl_ms, Some(5));
    assert!(parse_task(&session(), "tools", 3, &raw("{}")).is_err());
    assert!(parse_task(&session(), "tools", 3, &raw("{\"taskId\":\"t\",\"status\":\"odd\"}")).is_err());
    assert_eq!(parse_task_status(Some(&json("\"failed\""))), Ok(McpTaskStatus::Failed));
    assert!(parse_task_status(None).is_err());
}

#[test]
fn continuations_return_to_the_operation_that_asked() {
    let text = "{\"clientId\":7,\"outcome\":\"input_required\",\"result\":{\"inputRequests\":{\"r1\":{\"method\":\"roots/list\"}}}}";
    let outcome = parse_mcp_operation_outcome(&session(), "tools", &raw(text), "op").unwrap();
    let identity = match outcome {
        McpOperationOutcome::InputRequired { client_id, continuation, .. } => {
            assert_eq!(client_id, 7);
            continuation
        }
        _ => panic!("input was asked for"),
    };
    assert_eq!(identity.request_ids, vec!["r1".to_string()]);
    let continuation = |identity| McpContinuation {
        identity,
        input_responses: json("{\"r1\":{}}"),
        request_state: None,
    };
    let again = match parse_mcp_operation_outcome(&session(), "tools", &raw(text), "op").unwrap() {
        McpOperationOutcome::InputRequired { continuation, .. } => continuation,
        _ => panic!("input was asked for"),
    };
    let parts =
        validate_mcp_continuation(Some(continuation(identity)), &session(), "tools", "op").unwrap();
    assert_eq!(parts.client_id, Some(7));
    assert!(validate_mcp_continuation(Some(continuation(again)), &session(), "other", "op").is_err());
    let none = validate_mcp_continuation(None, &session(), "tools", "op").unwrap();
    assert_eq!(none.client_id, None);
    let complete = parse_mcp_operation_outcome(
        &session(),
        "tools",
        &raw("{\"clientId\":7,\"outcome\":\"complete\",\"result\":{\"a\":1}}"),
        "op",
    )
    .unwrap();
    match complete {
        McpOperationOutcome::Complete { result, .. } => {
            assert_eq!(result.document(), json("{\"a\":1}"));
        }
        _ => panic!("the operation is complete"),
    }
    assert!(parse_mcp_operation_outcome(&session(), "tools", &raw("{}"), "op").is_err());
    assert!(parse_mcp_operation_outcome(&session(), "tools", &raw("{\"clientId\":7}"), "op").is_err());
    assert!(parse_mcp_operation_outcome(
        &session(),
        "tools",
        &raw("{\"clientId\":7,\"outcome\":\"odd\",\"result\":1}"),
        "op"
    )
    .is_err());
}

#[test]
fn notifications_name_their_method() {
    let message = notification_message("notifications/changed", raw("{\"a\":1.5}")).unwrap();
    assert_eq!(
        message.write(),
        "{\"jsonrpc\":\"2.0\",\"method\":\"notifications/changed\",\"params\":{\"a\":1.5}}"
    );
    assert!(notification_message(" ", raw("null")).is_none());
    assert!(valid_bounded_line("a", 1));
    assert!(!valid_bounded_line("ab", 1));
    assert!(!valid_bounded_line("a\n", 5));
}
