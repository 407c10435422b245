//! Reading how an operation of a tool server went on: it completed, it needs input, or it became
//! a task.

use crate::digest::text_views;
use crate::json::{fields_view, lemma_fields_view, written_len, Json, JsonView, RawJson};
use crate::mcp::{is_bounded_line, valid_bounded_line};
use crate::session::{fault, invalid_config, operation, Error, Fault, SessionId};
use crate::text::{byte_len, decimal, option_view, push_decimal, same_text, utf8_len};
use vstd::prelude::*;

verus! {

/// Largest input requirement, in bytes.
pub const MAX_MCP_INPUT_PAYLOAD_BYTES: usize = 1048576;

/// Largest number of requests of one input requirement.
pub const MAX_MCP_INPUT_REQUESTS: usize = 64;

/// Largest identity of an input request, in bytes.
pub const MAX_MCP_INPUT_REQUEST_ID_BYTES: usize = 256;

/// Largest task, in bytes.
pub const MAX_MCP_TASK_PAYLOAD_BYTES: usize = 1048576;

/// Largest status message of a task, in bytes.
pub const MAX_MCP_TASK_STATUS_MESSAGE_BYTES: usize = 4096;

/// Largest identity of a task or its server, in bytes.
pub const MAX_MCP_TASK_ID_BYTES: usize = 256;

/// Largest instant of a task, in bytes.
pub const MAX_MCP_INSTANT_BYTES: usize = 128;

/// What a server asks of the host.
#[derive(Clone, Copy, Debug, PartialEq, Eq, Structural)]
pub enum McpInputRequestKind {
    Sampling,
    Elicitation,
    Roots,
}

/// One thing that a server asks of the host.
#[derive(Debug, PartialEq, Eq)]
pub struct McpInputRequest {
    pub id: String,
    pub kind: McpInputRequestKind,
    pub raw: Json,
}

/// What a [`McpInputRequest`] says.
pub struct InputRequestView {
    pub id: Seq<char>,
    pub kind: McpInputRequestKind,
    pub raw: JsonView,
}

impl View for McpInputRequest {
    type V = InputRequestView;

    open spec fn view(&self) -> InputRequestView {
        InputRequestView { id: self.id@, kind: self.kind, raw: self.raw@ }
    }
}

/// What each request says.
pub open spec fn request_views(requests: Seq<McpInputRequest>) -> Seq<InputRequestView> {
    Seq::new(requests.len(), |i: int| requests[i]@)
}

/// What an operation needs before it goes on.
#[derive(Debug, PartialEq, Eq)]
pub struct McpInputRequired {
    pub requests: Vec<McpInputRequest>,
    pub request_state: Option<String>,
    pub raw: Json,
}

/// What a [`McpInputRequired`] says.
pub struct InputRequiredView {
    pub requests: Seq<InputRequestView>,
    pub request_state: Option<Seq<char>>,
    pub raw: JsonView,
}

impl View for McpInputRequired {
    type V = InputRequiredView;

    open spec fn view(&self) -> InputRequiredView {
        InputRequiredView {
            requests: request_views(self.requests@),
            request_state: option_view(self.request_state),
            raw: self.raw@,
        }
    }
}

/// One request, by its identity and its document, or why it is refused.
pub open spec fn request_read(id: Seq<char>, request: JsonView) -> Result<InputRequestView, Fault> {
    let method = request.at("method"@).text();
    if !is_bounded_line(id, MAX_MCP_INPUT_REQUEST_ID_BYTES) {
        Err(Fault::Operation("MCP input request identity is invalid"@))
    } else if method == Some("sampling/createMessage"@) {
        Ok(InputRequestView { id, kind: McpInputRequestKind::Sampling, raw: request })
    } else if method == Some("elicitation/create"@) {
        Ok(InputRequestView { id, kind: McpInputRequestKind::Elicitation, raw: request })
    } else if method == Some("roots/list"@) {
        Ok(InputRequestView { id, kind: McpInputRequestKind::Roots, raw: request })
    } else {
        match method {
            Some(other) => Err(
                Fault::Operation("unsupported MCP input request method '"@ + other + "'"@),
            ),
            None => Err(Fault::Operation("MCP input request omitted its method"@)),
        }
    }
}

/// Requests in order, or why the first that is refused is.
pub open spec fn requests_read(fields: Seq<(Seq<char>, JsonView)>) -> Result<
    Seq<InputRequestView>,
    Fault,
>
    decreases fields.len(),
{
    if fields.len() == 0 {
        Ok(Seq::empty())
    } else {
        match requests_read(fields.drop_last()) {
            Err(e) => Err(e),
            Ok(before) => match request_read(fields.last().0, fields.last().1) {
                Ok(request) => Ok(before.push(request)),
                Err(e) => Err(e),
            },
        }
    }
}

/// The requests of a requirement, or why they are refused.
pub open spec fn required_requests(v: JsonView) -> Result<Seq<InputRequestView>, Fault> {
    match v.at("inputRequests"@) {
        JsonView::Null => Ok(Seq::empty()),
        JsonView::Object(fields) => if fields.len() > MAX_MCP_INPUT_REQUESTS {
            Err(
                Fault::Operation(
                    "MCP input requirement exceeds "@ + decimal(MAX_MCP_INPUT_REQUESTS as nat)
                        + " requests"@,
                ),
            )
        } else {
            requests_read(fields)
        },
        _ => Err(Fault::Operation("MCP inputRequests must be an object"@)),
    }
}

/// The state that a requirement carries, or why it is refused.
pub open spec fn required_state(v: JsonView) -> Result<Option<Seq<char>>, Fault> {
    match v.at("requestState"@) {
        JsonView::Null => Ok(None),
        JsonView::Text(state) => if utf8_len(state) > MAX_MCP_INPUT_PAYLOAD_BYTES {
            Err(Fault::Operation("MCP input request state exceeds its bound"@))
        } else {
            Ok(Some(state))
        },
        _ => Err(Fault::Operation("MCP requestState must be a string"@)),
    }
}

/// An input requirement, by its document and the length of its text, or why it is refused. It
/// must carry requests or a state.
pub open spec fn input_required_read(v: JsonView, encoded: nat) -> Result<
    InputRequiredView,
    Fault,
> {
    if encoded > MAX_MCP_INPUT_PAYLOAD_BYTES {
        Err(
            Fault::Operation(
                "MCP input requirement exceeds "@ + decimal(MAX_MCP_INPUT_PAYLOAD_BYTES as nat)
                    + " bytes"@,
            ),
        )
    } else {
        match required_requests(v) {
            Err(e) => Err(e),
            Ok(requests) => match required_state(v) {
                Err(e) => Err(e),
                Ok(request_state) => if requests.len() == 0 && request_state is None {
                    Err(
                        Fault::Operation(
                            "invalid MCP input_required response: no requests or request state"@,
                        ),
                    )
                } else {
                    Ok(InputRequiredView { requests, request_state, raw: v })
                },
            },
        }
    }
}

fn limit_error(head: &str, limit: usize, tail: &str) -> (r: Error)
    ensures
        r@ == Fault::Operation(head@ + decimal(limit as nat) + tail@),
{
    let mut out = head.to_owned();
    push_decimal(&mut out, limit as u64);
    out.append(tail);
    Error::Operation(out)
}

fn read_request(id: &str, request: &Json) -> (r: Result<McpInputRequest, Error>)
    ensures
        match request_read(id@, request@) {
            Ok(read) => r is Ok && r->Ok_0@ == read,
            Err(e) => fault(r) == Some(e),
        },
{
    if !valid_bounded_line(id, MAX_MCP_INPUT_REQUEST_ID_BYTES) {
        return Err(operation("MCP input request identity is invalid"));
    }
    let method = match request.text_at("method") {
        Some(method) => method,
        None => {
            return Err(operation("MCP input request omitted its method"));
        },
    };
    let kind = if same_text(method.as_str(), "sampling/createMessage") {
        McpInputRequestKind::Sampling
    } else if same_text(method.as_str(), "elicitation/create") {
        McpInputRequestKind::Elicitation
    } else if same_text(method.as_str(), "roots/list") {
        McpInputRequestKind::Roots
    } else {
        let mut message = "unsupported MCP input request method '".to_owned();
        message.append(method.as_str());
        message.append("'");
        return Err(Error::Operation(message));
    };
    Ok(McpInputRequest { id: id.to_owned(), kind, raw: request.duplicate() })
}

proof fn lemma_requests_refused(fields: Seq<(Seq<char>, JsonView)>, n: int)
    requires
        0 <= n <= fields.len(),
        requests_read(fields.take(n)) is Err,
    ensures
        requests_read(fields) == requests_read(fields.take(n)),
    decreases fields.len(),
{
    if n == fields.len() {
        assert(fields.take(n) =~= fields);
    } else {
        assert(fields.drop_last().take(n) =~= fields.take(n));
        lemma_requests_refused(fields.drop_last(), n);
    }
}

fn read_requests(v: &Json) -> (r: Result<Vec<McpInputRequest>, Error>)
    ensures
        match required_requests(v@) {
            Ok(requests) => r is Ok && request_views(r->Ok_0@) == requests,
            Err(e) => fault(r) == Some(e),
        },
{
    let mut out: Vec<McpInputRequest> = Vec::new();
    proof {
        assert(request_views(out@) =~= Seq::empty());
    }
    match v.get("inputRequests") {
        None => Ok(out),
        Some(Json::Null) => Ok(out),
        Some(Json::Object(fields)) => {
            let ghost all = fields_view(fields@);
            proof {
                lemma_fields_view(fields@);
                assert(all.take(0) =~= Seq::empty());
            }
            if fields.len() > MAX_MCP_INPUT_REQUESTS {
                return Err(
                    limit_error(
                        "MCP input requirement exceeds ",
                        MAX_MCP_INPUT_REQUESTS,
                        " requests",
                    ),
                );
            }
            let mut i: usize = 0;
            while i < fields.len()
                invariant
                    i <= fields@.len(),
                    all == fields_view(fields@),
                    all.len() == fields@.len(),
                    all.len() <= MAX_MCP_INPUT_REQUESTS,
                    v@.at("inputRequests"@) == JsonView::Object(all),
                    forall|j: int|
                        0 <= j < fields@.len() ==> #[trigger] all[j] == (
                            fields@[j].0@,
                            fields@[j].1@,
                        ),
                    requests_read(all.take(i as int)) == Ok::<Seq<InputRequestView>, Fault>(
                        request_views(out@),
                    ),
                decreases fields@.len() - i,
            {
                let ghost before = request_views(out@);
                proof {
                    assert(all.take(i + 1).drop_last() =~= all.take(i as int));
                    assert(all.take(i + 1).last() == all[i as int]);
                }
                match read_request(fields[i].0.as_str(), &fields[i].1) {
                    Ok(request) => {
                        out.push(request);
                        proof {
                            assert(request_views(out@) =~= before.push(request@));
                        }
                    },
                    Err(error) => {
                        proof {
                            lemma_requests_refused(all, i + 1);
                        }
                        return Err(error);
                    },
                }
                i += 1;
            }
            proof {
                assert(all.take(all.len() as int) =~= all);
            }
            Ok(out)
        },
        Some(_) => Err(operation("MCP inputRequests must be an object")),
    }
}

/// Reads an input requirement whose text has a known length.
pub fn read_input_required(v: Json, encoded: usize) -> (r: Result<McpInputRequired, Error>)
    ensures
        match input_required_read(v@, encoded as nat) {
            Ok(input) => r is Ok && r->Ok_0@ == input,
            Err(e) => fault(r) == Some(e),
        },
{
    if encoded > MAX_MCP_INPUT_PAYLOAD_BYTES {
        return Err(
            limit_error("MCP input requirement exceeds ", MAX_MCP_INPUT_PAYLOAD_BYTES, " bytes"),
        );
    }
    let requests = read_requests(&v)?;
    let request_state = match v.get("requestState") {
        None => None,
        Some(Json::Null) => None,
        Some(Json::Text(state)) => {
            if byte_len(state.as_str()) > MAX_MCP_INPUT_PAYLOAD_BYTES {
                return Err(operation("MCP input request state exceeds its bound"));
            }
            Some(state.clone())
        },
        Some(_) => {
            return Err(operation("MCP requestState must be a string"));
        },
    };
    if requests.len() == 0 && request_state.is_none() {
        return Err(
            operation("invalid MCP input_required response: no requests or request state"),
        );
    }
    Ok(McpInputRequired { requests, request_state, raw: v })
}

/// Reads an input requirement.
pub fn parse_input_required(v: &RawJson) -> (r: Result<McpInputRequired, Error>)
    ensures
        match input_required_read(v@, written_len(v@)) {
            Ok(input) => r is Ok && r->Ok_0@ == input,
            Err(e) => fault(r) == Some(e),
        },
{
    read_input_required(v.document(), v.encoded_len())
}

/// Where a task stands.
#[derive(Clone, Copy, Debug, PartialEq, Eq, Structural)]
pub enum McpTaskStatus {
    Working,
    InputRequired,
    Completed,
    Failed,
    Cancelled,
}

/// The status that a name stands for.
pub open spec fn task_status_named(name: Option<Seq<char>>) -> Option<McpTaskStatus> {
    if name == Some("working"@) {
        Some(McpTaskStatus::Working)
    } else if name == Some("input_required"@) {
        Some(McpTaskStatus::InputRequired)
    } else if name == Some("completed"@) {
        Some(McpTaskStatus::Completed)
    } else if name == Some("failed"@) {
        Some(McpTaskStatus::Failed)
    } else if name == Some("cancelled"@) {
        Some(McpTaskStatus::Cancelled)
    } else {
        None
    }
}

/// Reads where a task stands.
pub fn parse_task_status(value: Option<&Json>) -> (r: Result<McpTaskStatus, Error>)
    ensures
        match task_status_named(
            match value {
                Some(j) => j@.text(),
                None => None,
            },
        ) {
            Some(status) => r is Ok && r->Ok_0 == status,
            None => fault(r) == Some(Fault::Operation("invalid MCP Task status"@)),
        },
{
    if let Some(Json::Text(name)) = value {
        if same_text(name.as_str(), "working") {
            return Ok(McpTaskStatus::Working);
        }
        if same_text(name.as_str(), "input_required") {
            return Ok(McpTaskStatus::InputRequired);
        }
        if same_text(name.as_str(), "completed") {
            return Ok(McpTaskStatus::Completed);
        }
        if same_text(name.as_str(), "failed") {
            return Ok(McpTaskStatus::Failed);
        }
        if same_text(name.as_str(), "cancelled") {
            return Ok(McpTaskStatus::Cancelled);
        }
    }
    Err(operation("invalid MCP Task status"))
}

/// What a task is found by.
#[derive(Debug, PartialEq, Eq)]
pub struct McpTaskHandle {
    pub session_id: SessionId,
    pub server: String,
    pub client_id: u64,
    pub task_id: String,
}

/// What a [`McpTaskHandle`] says.
pub struct TaskHandleView {
    pub session_id: Seq<char>,
    pub server: Seq<char>,
    pub client_id: u64,
    pub task_id: Seq<char>,
}

impl View for McpTaskHandle {
    type V = TaskHandleView;

    open spec fn view(&self) -> TaskHandleView {
        TaskHandleView {
            session_id: self.session_id@,
            server: self.server@,
            client_id: self.client_id,
            task_id: self.task_id@,
        }
    }
}

/// An operation that goes on by itself.
#[derive(Debug, PartialEq, Eq)]
pub struct McpTask {
    pub handle: McpTaskHandle,
    pub status: McpTaskStatus,
    pub status_message: Option<String>,
    pub created_at: String,
    pub last_updated_at: String,
    pub ttl_ms: Option<u64>,
    pub poll_interval_ms: Option<u64>,
    pub input_required: Option<McpInputRequired>,
    pub result: Option<Json>,
    pub error: Option<Json>,
    pub raw: Json,
}

/// What a [`McpTask`] says.
pub struct TaskView {
    pub handle: TaskHandleView,
    pub status: McpTaskStatus,
    pub status_message: Option<Seq<char>>,
    pub created_at: Seq<char>,
    pub last_updated_at: Seq<char>,
    pub ttl_ms: Option<u64>,
    pub poll_interval_ms: Option<u64>,
    pub input_required: Option<InputRequiredView>,
    pub result: Option<JsonView>,
    pub error: Option<JsonView>,
    pub raw: JsonView,
}

/// What an optional document says.
pub open spec fn optional_json(document: Option<Json>) -> Option<JsonView> {
    match document {
        Some(j) => Some(j@),
        None => None,
    }
}

impl View for McpTask {
    type V = TaskView;

    open spec fn view(&self) -> TaskView {
        TaskView {
            handle: self.handle@,
            status: self.status,
            status_message: option_view(self.status_message),
            created_at: self.created_at@,
            last_updated_at: self.last_updated_at@,
            ttl_ms: self.ttl_ms,
            poll_interval_ms: self.poll_interval_ms,
            input_required: match self.input_required {
                Some(input) => Some(input@),
                None => None,
            },
            result: optional_json(self.result),
            error: optional_json(self.error),
            raw: self.raw@,
        }
    }
}

/// The requirement that a task stands for while it needs input.
pub open spec fn task_requirement(raw: JsonView) -> JsonView {
    JsonView::Object(
        seq![
            ("resultType"@, JsonView::Text("input_required"@)),
            ("inputRequests"@, raw.at("inputRequests"@)),
        ],
    )
}

/// A number under its name, or under its older one.
pub open spec fn number_under(raw: JsonView, name: Seq<char>, older: Seq<char>) -> Option<u64> {
    match raw.at(name).unsigned() {
        Some(n) => Some(n),
        None => raw.at(older).unsigned(),
    }
}

/// What is wrong with an instant of a task.
pub open spec fn instant_fault(raw: JsonView, name: Seq<char>) -> bool {
    match raw.at(name).text() {
        Some(text) => !is_bounded_line(text, MAX_MCP_INSTANT_BYTES),
        None => true,
    }
}

/// The requirement of a task, when it stands at needing input.
pub open spec fn task_input(
    raw: JsonView,
    status: McpTaskStatus,
    requirement_len: nat,
) -> Result<Option<InputRequiredView>, Fault> {
    if status == McpTaskStatus::InputRequired {
        match input_required_read(task_requirement(raw), requirement_len) {
            Ok(input) => Ok(Some(input)),
            Err(e) => Err(e),
        }
    } else {
        Ok(None)
    }
}

/// A task, by its document and the lengths of its text and of its requirement's, or why it is
/// refused.
pub open spec fn task_read(
    session_id: Seq<char>,
    server: Seq<char>,
    client_id: u64,
    raw: JsonView,
    encoded: nat,
    requirement_len: nat,
) -> Result<TaskView, Fault> {
    if encoded > MAX_MCP_TASK_PAYLOAD_BYTES {
        Err(
            Fault::Operation(
                "MCP Task exceeds "@ + decimal(MAX_MCP_TASK_PAYLOAD_BYTES as nat) + " bytes"@,
            ),
        )
    } else if raw.at("taskId"@).text() is None {
        Err(Fault::Operation("MCP Task omitted taskId"@))
    } else if !is_bounded_line(server, MAX_MCP_TASK_ID_BYTES) || !is_bounded_line(
        raw.at("taskId"@).text()->Some_0,
        MAX_MCP_TASK_ID_BYTES,
    ) {
        Err(Fault::InvalidConfig("MCP Task identity is invalid"@))
    } else if task_status_named(raw.at("status"@).text()) is None {
        Err(Fault::Operation("invalid MCP Task status"@))
    } else {
        let status = task_status_named(raw.at("status"@).text())->Some_0;
        match task_input(raw, status, requirement_len) {
            Err(e) => Err(e),
            Ok(input_required) => {
                let message = raw.at("statusMessage"@).text();
                if message is Some && utf8_len(message->Some_0)
                    > MAX_MCP_TASK_STATUS_MESSAGE_BYTES {
                    Err(
                        Fault::Operation(
                            "MCP Task status message exceeds "@ + decimal(
                                MAX_MCP_TASK_STATUS_MESSAGE_BYTES as nat,
                            ) + " bytes"@,
                        ),
                    )
                } else if instant_fault(raw, "createdAt"@) {
                    Err(Fault::Operation("MCP Task has an invalid createdAt"@))
                } else if instant_fault(raw, "lastUpdatedAt"@) {
                    Err(Fault::Operation("MCP Task has an invalid lastUpdatedAt"@))
                } else {
                    Ok(
                        TaskView {
                            handle: TaskHandleView {
                                session_id,
                                server,
                                client_id,
                                task_id: raw.at("taskId"@).text()->Some_0,
                            },
                            status,
                            status_message: message,
                            created_at: raw.at("createdAt"@).text()->Some_0,
                            last_updated_at: raw.at("lastUpdatedAt"@).text()->Some_0,
                            ttl_ms: number_under(raw, "ttl"@, "ttlMs"@),
                            poll_interval_ms: number_under(
                                raw,
                                "pollInterval"@,
                                "pollIntervalMs"@,
                            ),
                            input_required,
                            result: raw.get("result"@),
                            error: raw.get("error"@),
                            raw,
                        },
                    )
                }
            },
        }
    }
}

fn read_number(raw: &Json, name: &str, older: &str) -> (r: Option<u64>)
    ensures
        r == number_under(raw@, name@, older@),
{
    match raw.unsigned_at(name) {
        Some(n) => Some(n),
        None => raw.unsigned_at(older),
    }
}

fn read_instant(raw: &Json, name: &str, message: &str) -> (r: Result<String, Error>)
    ensures
        if instant_fault(raw@, name@) {
            fault(r) == Some(Fault::Operation(message@))
        } else {
            r is Ok && Some(r->Ok_0@) == raw@.at(name@).text()
        },
{
    match raw.text_at(name) {
        Some(text) => if valid_bounded_line(text.as_str(), MAX_MCP_INSTANT_BYTES) {
            Ok(text)
        } else {
            Err(operation(message))
        },
        None => Err(operation(message)),
    }
}

fn copy_field(raw: &Json, key: &str) -> (r: Option<Json>)
    ensures
        optional_json(r) == raw@.get(key@),
{
    match raw.get(key) {
        Some(field) => Some(field.duplicate()),
        None => None,
    }
}

/// Reads a task.
#[verifier::spinoff_prover]
#[verifier::rlimit(40)]
pub fn parse_task(session_id: &SessionId, server: &str, client_id: u64, task: &RawJson) -> (r:
    Result<McpTask, Error>)
    ensures
        match task_read(
            session_id@,
            server@,
            client_id,
            task@,
            written_len(task@),
            written_len(task_requirement(task@)),
        ) {
            Ok(read) => r is Ok && r->Ok_0@ == read,
            Err(e) => fault(r) == Some(e),
        },
{
    proof {
        reveal_strlit("resultType");
        reveal_strlit("inputRequests");
        assert("resultType"@.len() == 10 && "inputRequests"@.len() == 13);
    }
    if task.encoded_len() > MAX_MCP_TASK_PAYLOAD_BYTES {
        return Err(limit_error("MCP Task exceeds ", MAX_MCP_TASK_PAYLOAD_BYTES, " bytes"));
    }
    let raw = task.document();
    let task_id = match raw.text_at("taskId") {
        Some(id) => id,
        None => {
            return Err(operation("MCP Task omitted taskId"));
        },
    };
    if !valid_bounded_line(server, MAX_MCP_TASK_ID_BYTES) || !valid_bounded_line(
        task_id.as_str(),
        MAX_MCP_TASK_ID_BYTES,
    ) {
        return Err(invalid_config("MCP Task identity is invalid"));
    }
    let status = parse_task_status(raw.get("status"))?;
    let input_required = if status == McpTaskStatus::InputRequired {
        let requirement = RawJson::tagged(
            "resultType",
            "input_required",
            "inputRequests",
            task.field("inputRequests"),
        );
        Some(parse_input_required(&requirement)?)
    } else {
        None
    };
    let status_message = raw.text_at("statusMessage");
    if let Some(message) = &status_message {
        if byte_len(message.as_str()) > MAX_MCP_TASK_STATUS_MESSAGE_BYTES {
            return Err(
                limit_error(
                    "MCP Task status message exceeds ",
                    MAX_MCP_TASK_STATUS_MESSAGE_BYTES,
                    " bytes",
                ),
            );
        }
    }
    let created_at = read_instant(&raw, "createdAt", "MCP Task has an invalid createdAt")?;
    let last_updated_at = read_instant(
        &raw,
        "lastUpdatedAt",
        "MCP Task has an invalid lastUpdatedAt",
    )?;
    Ok(
        McpTask {
            handle: McpTaskHandle {
                session_id: session_id.duplicate(),
                server: server.to_owned(),
                client_id,
                task_id,
            },
            status,
            status_message,
            created_at,
            last_updated_at,
            ttl_ms: read_number(&raw, "ttl", "ttlMs"),
            poll_interval_ms: read_number(&raw, "pollInterval", "pollIntervalMs"),
            input_required,
            result: copy_field(&raw, "result"),
            error: copy_field(&raw, "error"),
            raw,
        },
    )
}

/// What a continuation must belong to.
#[derive(Debug, PartialEq, Eq)]
pub struct McpContinuationIdentity {
    pub session_id: SessionId,
    pub server: String,
    pub client_id: u64,
    /// The operation that goes on.
    pub operation: String,
    pub request_ids: Vec<String>,
}

/// What a [`McpContinuationIdentity`] says.
pub struct ContinuationView {
    pub session_id: Seq<char>,
    pub server: Seq<char>,
    pub client_id: u64,
    pub operation: Seq<char>,
    pub request_ids: Seq<Seq<char>>,
}

impl View for McpContinuationIdentity {
    type V = ContinuationView;

    open spec fn view(&self) -> ContinuationView {
        ContinuationView {
            session_id: self.session_id@,
            server: self.server@,
            client_id: self.client_id,
            operation: self.operation@,
            request_ids: text_views(self.request_ids@),
        }
    }
}

/// How an operation went on.
#[derive(Debug, PartialEq, Eq)]
pub enum McpOperationOutcome {
    Complete { client_id: u64, result: RawJson },
    InputRequired {
        client_id: u64,
        input: McpInputRequired,
        continuation: McpContinuationIdentity,
    },
    Task { task: McpTask },
}

/// What a [`McpOperationOutcome`] says.
pub enum OutcomeView {
    Complete { client_id: u64, result: JsonView },
    InputRequired { client_id: u64, input: InputRequiredView, continuation: ContinuationView },
    Task { task: TaskView },
}

impl View for McpOperationOutcome {
    type V = OutcomeView;

    open spec fn view(&self) -> OutcomeView {
        match self {
            McpOperationOutcome::Complete { client_id, result } => OutcomeView::Complete {
                client_id: *client_id,
                result: result@,
            },
            McpOperationOutcome::InputRequired { client_id, input, continuation } => {
                OutcomeView::InputRequired {
                    client_id: *client_id,
                    input: input@,
                    continuation: continuation@,
                }
            },
            McpOperationOutcome::Task { task } => OutcomeView::Task { task: task@ },
        }
    }
}

/// The identities of requests.
pub open spec fn request_ids(requests: Seq<InputRequestView>) -> Seq<Seq<char>> {
    Seq::new(requests.len(), |i: int| requests[i].id)
}

/// How an operation went on, by its document, or why that is refused. What needs input can be
/// continued only for the same session, server, client and operation.
pub open spec fn outcome_read(
    session_id: Seq<char>,
    server: Seq<char>,
    value: JsonView,
    operation: Seq<char>,
) -> Result<OutcomeView, Fault> {
    let result = value.at("result"@);
    let outcome = value.at("outcome"@).text();
    match value.at("clientId"@).unsigned() {
        None => Err(Fault::Operation("MCP operation omitted client generation"@)),
        Some(client_id) => if value.get("result"@) is None {
            Err(Fault::Operation("MCP operation omitted result"@))
        } else if outcome == Some("complete"@) {
            Ok(OutcomeView::Complete { client_id, result })
        } else if outcome == Some("input_required"@) {
            match input_required_read(result, written_len(result)) {
                Err(e) => Err(e),
                Ok(input) => Ok(
                    OutcomeView::InputRequired {
                        client_id,
                        input,
                        continuation: ContinuationView {
                            session_id,
                            server,
                            client_id,
                            operation,
                            request_ids: request_ids(input.requests),
                        },
                    },
                ),
            }
        } else if outcome == Some("task"@) {
            match task_read(
                session_id,
                server,
                client_id,
                result,
                written_len(result),
                written_len(task_requirement(result)),
            ) {
                Err(e) => Err(e),
                Ok(task) => Ok(OutcomeView::Task { task }),
            }
        } else {
            Err(Fault::Operation("unsupported MCP operation outcome"@))
        },
    }
}

fn collect_ids(requests: &Vec<McpInputRequest>) -> (r: Vec<String>)
    ensures
        text_views(r@) == request_ids(request_views(requests@)),
{
    let mut out: Vec<String> = Vec::new();
    let mut i: usize = 0;
    while i < requests.len()
        invariant
            i <= requests@.len(),
            out@.len() == i,
            forall|j: int| 0 <= j < i ==> (#[trigger] out@[j])@ == requests@[j].id@,
        decreases requests@.len() - i,
    {
        out.push(requests[i].id.clone());
        i += 1;
    }
    proof {
        assert(text_views(out@) =~= request_ids(request_views(requests@)));
    }
    out
}

/// Reads how an operation went on. What a completed one answered is read by its own reader.
pub fn parse_mcp_operation_outcome(
    session_id: &SessionId,
    server: &str,
    value: &RawJson,
    operation_id: &str,
) -> (r: Result<McpOperationOutcome, Error>)
    ensures
        match outcome_read(session_id@, server@, value@, operation_id@) {
            Ok(outcome) => r is Ok && r->Ok_0@ == outcome,
            Err(e) => fault(r) == Some(e),
        },
{
    let document = value.document();
    let client_id: u64 = match document.unsigned_at("clientId") {
        Some(id) => id,
        None => {
            return Err(operation("MCP operation omitted client generation"));
        },
    };
    if document.get("result").is_none() {
        return Err(operation("MCP operation omitted result"));
    }
    let result = value.field("result");
    let outcome = match document.text_at("outcome") {
        Some(outcome) => outcome,
        None => {
            return Err(operation("unsupported MCP operation outcome"));
        },
    };
    if same_text(outcome.as_str(), "complete") {
        return Ok(McpOperationOutcome::Complete { client_id, result });
    }
    if same_text(outcome.as_str(), "input_required") {
        let input = parse_input_required(&result)?;
        let request_ids = collect_ids(&input.requests);
        return Ok(
            McpOperationOutcome::InputRequired {
                client_id,
                input,
                continuation: McpContinuationIdentity {
                    session_id: session_id.duplicate(),
                    server: server.to_owned(),
                    client_id,
                    operation: operation_id.to_owned(),
                    request_ids,
                },
            },
        );
    }
    if same_text(outcome.as_str(), "task") {
        let task = parse_task(session_id, server, client_id, &result)?;
        return Ok(McpOperationOutcome::Task { task });
    }
    Err(operation("unsupported MCP operation outcome"))
}

/// A host's answer to what an operation needs.
#[derive(Debug, PartialEq, Eq)]
pub struct McpContinuation {
    pub identity: McpContinuationIdentity,
    pub input_responses: Json,
    pub request_state: Option<String>,
}

/// What a continuation carries on: the answers, the state and the client.
#[derive(Debug, PartialEq, Eq)]
pub struct McpContinuationParts {
    pub input_responses: Option<Json>,
    pub request_state: Option<String>,
    pub client_id: Option<u64>,
}

/// Whether a continuation belongs to an operation.
pub open spec fn continues(
    identity: ContinuationView,
    session_id: Seq<char>,
    server: Seq<char>,
    operation: Seq<char>,
) -> bool {
    identity.session_id == session_id && identity.server == server && identity.operation
        == operation
}

/// Takes a continuation apart, when it belongs to the operation.
pub fn validate_mcp_continuation(
    continuation: Option<McpContinuation>,
    session_id: &SessionId,
    server: &str,
    operation_id: &str,
) -> (r: Result<McpContinuationParts, Error>)
    ensures
        match continuation {
            None => r is Ok && r->Ok_0.input_responses is None && r->Ok_0.request_state is None
                && r->Ok_0.client_id is None,
            Some(c) => if continues(c.identity@, session_id@, server@, operation_id@) {
                r is Ok && optional_json(r->Ok_0.input_responses) == Some(c.input_responses@)
                    && option_view(r->Ok_0.request_state) == option_view(c.request_state)
                    && r->Ok_0.client_id == Some(c.identity.client_id)
            } else {
                fault(r) == Some(
                    Fault::InvalidConfig(
                        "MCP continuation does not belong to this session, server, or operation"@,
                    ),
                )
            },
        },
{
    let continuation = match continuation {
        Some(c) => c,
        None => {
            return Ok(
                McpContinuationParts {
                    input_responses: None,
                    request_state: None,
                    client_id: None,
                },
            );
        },
    };
    if !continuation.identity.session_id.same(session_id) || !same_text(
        continuation.identity.server.as_str(),
        server,
    ) || !same_text(continuation.identity.operation.as_str(), operation_id) {
        return Err(
            invalid_config("MCP continuation does not belong to this session, server, or operation"),
        );
    }
    Ok(
        McpContinuationParts {
            input_responses: Some(continuation.input_responses),
            request_state: continuation.request_state,
            client_id: Some(continuation.identity.client_id),
        },
    )
}

/// The continuation that an operation hands out belongs to that operation, and to no other of
/// another session, server or name.
pub proof fn law_continuations_return_to_their_operation(
    session_id: Seq<char>,
    server: Seq<char>,
    value: JsonView,
    operation: Seq<char>,
    other_session: Seq<char>,
    other_server: Seq<char>,
    other_operation: Seq<char>,
)
    ensures
        outcome_read(session_id, server, value, operation) matches Ok(OutcomeView::InputRequired {
            client_id,
            input,
            continuation,
        }) ==> {
            &&& continues(continuation, session_id, server, operation)
            &&& continues(continuation, other_session, other_server, other_operation) ==> (
            other_session == session_id && other_server == server && other_operation == operation)
            &&& value.at("clientId"@).unsigned() == Some(continuation.client_id)
        },
{
}

/// Each place at which a task can stand has one name, and any other name is refused.
pub proof fn law_task_statuses_have_one_name_each(name: Option<Seq<char>>)
    ensures
        task_status_named(name) == Some(McpTaskStatus::Working) <==> name == Some("working"@),
        task_status_named(name) == Some(McpTaskStatus::InputRequired) <==> name == Some(
            "input_required"@,
        ),
        task_status_named(name) == Some(McpTaskStatus::Completed) <==> name == Some("completed"@),
        task_status_named(name) == Some(McpTaskStatus::Failed) <==> name == Some("failed"@),
        task_status_named(name) == Some(McpTaskStatus::Cancelled) <==> name == Some("cancelled"@),
{
    reveal_strlit("working");
    reveal_strlit("input_required");
    reveal_strlit("completed");
    reveal_strlit("failed");
    reveal_strlit("cancelled");
    assert("completed"@[1] == 'o' && "cancelled"@[1] == 'a');
    assert("working"@.len() == 7 && "input_required"@.len() == 14 && "completed"@.len() == 9
        && "failed"@.len() == 6 && "cancelled"@.len() == 9);
}

/// A task that is read belongs to the session, server and client that it was read for, under the
/// identity that its document gives, and tells what the document says: where it stands, its
/// message, its instants, its result and its error. It asks for input exactly where it stands at
/// that, and a number may stand under its older name alone.
pub proof fn law_tasks_tell_what_their_document_says(
    session_id: Seq<char>,
    server: Seq<char>,
    client_id: u64,
    raw: JsonView,
    encoded: nat,
    requirement_len: nat,
)
    ensures
        task_read(session_id, server, client_id, raw, encoded, requirement_len) matches Ok(task)
            ==> {
            &&& task.handle.session_id == session_id
            &&& task.handle.server == server
            &&& task.handle.client_id == client_id
            &&& raw.at("taskId"@).text() == Some(task.handle.task_id)
            &&& task_status_named(raw.at("status"@).text()) == Some(task.status)
            &&& task.status_message == raw.at("statusMessage"@).text()
            &&& raw.at("createdAt"@).text() == Some(task.created_at)
            &&& raw.at("lastUpdatedAt"@).text() == Some(task.last_updated_at)
            &&& raw.at("ttl"@).unsigned() is Some ==> task.ttl_ms == raw.at("ttl"@).unsigned()
            &&& raw.at("ttl"@).unsigned() is None ==> task.ttl_ms == raw.at("ttlMs"@).unsigned()
            &&& raw.at("pollInterval"@).unsigned() is Some ==> task.poll_interval_ms == raw.at(
                "pollInterval"@,
            ).unsigned()
            &&& raw.at("pollInterval"@).unsigned() is None ==> task.poll_interval_ms == raw.at(
                "pollIntervalMs"@,
            ).unsigned()
            &&& task.input_required is Some <==> task.status == McpTaskStatus::InputRequired
            &&& task.result == raw.get("result"@)
            &&& task.error == raw.get("error"@)
            &&& task.raw == raw
        },
{
}

/// An operation went on as its document says: it is complete, needs input or became a task exactly
/// where the document names that, for the client that it names. What it needs or became is read of
/// its result, and the continuation of what needs input names the requests in their order.
pub proof fn law_outcomes_tell_how_an_operation_went_on(
    session_id: Seq<char>,
    server: Seq<char>,
    value: JsonView,
    operation: Seq<char>,
)
    ensures
        ({
            let answer = outcome_read(session_id, server, value, operation);
            let said = value.at("outcome"@).text();
            let client = value.at("clientId"@).unsigned();
            let result = value.at("result"@);
            &&& answer is Ok ==> client is Some && value.get("result"@) is Some
            &&& answer matches Ok(OutcomeView::Complete { client_id, result: told }) ==> said
                == Some("complete"@) && client == Some(client_id) && told == result
            &&& client is Some && value.get("result"@) is Some && said == Some("complete"@)
                ==> answer == Ok::<OutcomeView, Fault>(
                OutcomeView::Complete { client_id: client->Some_0, result },
            )
            &&& answer matches Ok(OutcomeView::InputRequired { client_id, input, continuation })
                ==> {
                &&& said == Some("input_required"@)
                &&& client == Some(client_id)
                &&& input_required_read(result, written_len(result)) == Ok::<
                    InputRequiredView,
                    Fault,
                >(input)
                &&& continuation.client_id == client_id
                &&& continuation.request_ids.len() == input.requests.len()
                &&& forall|i: int|
                    0 <= i < input.requests.len() ==> #[trigger] continuation.request_ids[i]
                        == input.requests[i].id
            }
            &&& answer matches Ok(OutcomeView::Task { task }) ==> {
                &&& said == Some("task"@)
                &&& client == Some(task.handle.client_id)
                &&& task.handle.session_id == session_id
                &&& task.handle.server == server
                &&& task.raw == result
            }
        }),
{
    reveal_strlit("complete");
    reveal_strlit("input_required");
    reveal_strlit("task");
}

/// A request that is read keeps its identity and its document, and is of the kind that its method
/// names.
pub proof fn law_requests_are_of_the_kind_they_name(id: Seq<char>, request: JsonView)
    ensures
        ({
            let answer = request_read(id, request);
            let method = request.at("method"@).text();
            &&& answer matches Ok(read) ==> {
                &&& read.id == id
                &&& read.raw == request
                &&& read.kind is Sampling <==> method == Some("sampling/createMessage"@)
                &&& read.kind is Elicitation <==> method == Some("elicitation/create"@)
                &&& read.kind is Roots <==> method == Some("roots/list"@)
            }
            &&& answer is Ok <==> is_bounded_line(id, MAX_MCP_INPUT_REQUEST_ID_BYTES) && (method
                == Some("sampling/createMessage"@) || method == Some("elicitation/create"@)
                || method == Some("roots/list"@))
        }),
{
    reveal_strlit("sampling/createMessage");
    reveal_strlit("elicitation/create");
    reveal_strlit("roots/list");
    assert("sampling/createMessage"@.len() == 22 && "elicitation/create"@.len() == 18
        && "roots/list"@.len() == 10);
}

proof fn lemma_requests_read(fields: Seq<(Seq<char>, JsonView)>)
    ensures
        requests_read(fields) matches Ok(requests) ==> requests.len() == fields.len() && forall|
            i: int,
        |
            0 <= i < fields.len() ==> (#[trigger] requests[i]).id == fields[i].0 && requests[i].raw
                == fields[i].1,
    decreases fields.len(),
{
    if fields.len() > 0 {
        lemma_requests_read(fields.drop_last());
    }
}

/// A requirement that is read asks for something: it carries a state or at least one request, and a
/// request for every field of its document, in order, each with its own identity and document.
pub proof fn law_requirements_ask_for_something(v: JsonView, encoded: nat)
    ensures
        input_required_read(v, encoded) matches Ok(input) ==> {
            &&& input.requests.len() > 0 || input.request_state is Some
            &&& input.raw == v
            &&& v.at("requestState"@) matches JsonView::Text(state) ==> input.request_state
                == Some(state)
            &&& v.at("requestState"@) is Null ==> input.request_state is None
            &&& v.at("inputRequests"@) is Null ==> input.requests.len() == 0
            &&& v.at("inputRequests"@) matches JsonView::Object(fields) ==> {
                &&& input.requests.len() == fields.len()
                &&& forall|i: int|
                    0 <= i < fields.len() ==> (#[trigger] input.requests[i]).id == fields[i].0
                        && input.requests[i].raw == fields[i].1
            }
        },
{
    match v.at("inputRequests"@) {
        JsonView::Object(fields) => lemma_requests_read(fields),
        _ => {},
    }
}

} // verus!
