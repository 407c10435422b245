//! Model routes and the checks that stand in front of the native engine.

use crate::json::{
    fields_view, list_view, lookup, object_json, push_field, push_item, text_json, Json, JsonView,
};
use crate::session::{fault, invalid_config, operation, Error, Fault, SessionId};
use crate::text::{blank, is_blank, option_view, same_text, text_before, text_lt};
use vstd::prelude::*;

verus! {

/// The protocol that a model speaks.
#[derive(Clone, Copy, Debug, PartialEq, Eq, Structural)]
pub enum ApiBackend {
    ChatCompletions,
    Responses,
}

impl Default for ApiBackend {
    fn default() -> (r: ApiBackend)
        ensures
            r == ApiBackend::ChatCompletions,
    {
        ApiBackend::ChatCompletions
    }
}

impl ApiBackend {
    pub open spec fn name(self) -> Seq<char> {
        match self {
            ApiBackend::ChatCompletions => "chat_completions"@,
            ApiBackend::Responses => "responses"@,
        }
    }

    pub fn as_str(self) -> (r: &'static str)
        ensures
            r@ == self.name(),
    {
        match self {
            ApiBackend::ChatCompletions => "chat_completions",
            ApiBackend::Responses => "responses",
        }
    }
}

/// A model of the fixed catalog.
#[derive(Debug, PartialEq, Eq)]
pub struct ModelSpec {
    pub id: String,
    pub context_window: u64,
    pub api_backend: ApiBackend,
    pub supports_reasoning: bool,
    pub default_reasoning: Option<String>,
    pub reasoning_options: Vec<String>,
}

/// What a runtime is started with.
pub struct RuntimeConfig {
    pub endpoint: String,
    pub api_key: String,
    pub grok_home: String,
    pub session_storage: String,
    pub models: Vec<ModelSpec>,
}

/// What a session is opened with.
#[derive(Debug, PartialEq, Eq)]
pub struct SessionConfig {
    pub cwd: String,
    pub model: String,
    pub reasoning: Option<String>,
}

/// What is wrong with a runtime's configuration.
pub open spec fn config_fault(config: RuntimeConfig) -> Option<Fault> {
    if is_blank(config.endpoint@) || is_blank(config.api_key@) || config.models@.len() == 0 {
        Some(Fault::InvalidConfig("endpoint, API key, and model catalog are required"@))
    } else if exists|i: int|
        0 <= i < config.models@.len() && (is_blank((#[trigger] config.models@[i]).id@)
            || config.models@[i].context_window == 0) {
        Some(Fault::InvalidConfig("model id and non-zero context window are required"@))
    } else {
        None
    }
}

/// Checks the configuration of a runtime.
#[verifier::loop_isolation(false)]
pub fn validate(config: &RuntimeConfig) -> (r: Result<(), Error>)
    ensures
        fault(r) == config_fault(*config),
{
    if blank(config.endpoint.as_str()) || blank(config.api_key.as_str()) || config.models.len()
        == 0 {
        return Err(invalid_config("endpoint, API key, and model catalog are required"));
    }
    let mut i: usize = 0;
    while i < config.models.len()
        invariant
            i <= config.models@.len(),
            forall|j: int|
                0 <= j < i ==> !is_blank((#[trigger] config.models@[j]).id@)
                    && config.models@[j].context_window != 0,
        decreases config.models@.len() - i,
    {
        let model = &config.models[i];
        if blank(model.id.as_str()) || model.context_window == 0 {
            assert(is_blank(config.models@[i as int].id@) || config.models@[i as int].context_window
                == 0);
            return Err(invalid_config("model id and non-zero context window are required"));
        }
        i += 1;
    }
    Ok(())
}

/// Whether `p` is the position of the model that an identifier stands for. Of two models with one
/// identifier the later one counts.
pub open spec fn model_at(models: Seq<ModelSpec>, id: Seq<char>, p: int) -> bool {
    &&& 0 <= p < models.len()
    &&& models[p].id@ == id
    &&& forall|i: int| p < i < models.len() ==> (#[trigger] models[i]).id@ != id
}

/// Whether a model offers a reasoning effort.
pub open spec fn offers(model: ModelSpec, reasoning: Seq<char>) -> bool {
    model.supports_reasoning && exists|i: int|
        0 <= i < model.reasoning_options@.len() && (#[trigger] model.reasoning_options@[i])@
            == reasoning
}

/// What is wrong with a route: its model must be in the catalog, and must offer the reasoning
/// effort that is asked for.
pub open spec fn route_fault(
    models: Seq<ModelSpec>,
    model_id: Seq<char>,
    reasoning: Option<Seq<char>>,
) -> Option<Fault> {
    if !exists|p: int| model_at(models, model_id, p) {
        Some(Fault::InvalidConfig("model '"@ + model_id + "' is not in the fixed catalog"@))
    } else if reasoning is Some && !offers(
        models[choose|p: int| model_at(models, model_id, p)],
        reasoning->Some_0,
    ) {
        Some(
            Fault::InvalidConfig(
                "reasoning effort '"@ + reasoning->Some_0 + "' is not available for model '"@
                    + model_id + "'"@,
            ),
        )
    } else {
        None
    }
}

/// Finds the model that an identifier stands for.
pub fn find_model(models: &Vec<ModelSpec>, id: &str) -> (r: Option<usize>)
    ensures
        match r {
            Some(p) => model_at(models@, id@, p as int),
            None => forall|p: int| !model_at(models@, id@, p),
        },
{
    let mut i: usize = models.len();
    while i > 0
        invariant
            i <= models@.len(),
            forall|j: int| i <= j < models@.len() ==> (#[trigger] models@[j]).id@ != id@,
        decreases i,
    {
        i -= 1;
        if same_text(models[i].id.as_str(), id) {
            return Some(i);
        }
    }
    None
}

#[verifier::loop_isolation(false)]
fn offers_effort(model: &ModelSpec, reasoning: &str) -> (r: bool)
    ensures
        r == offers(*model, reasoning@),
{
    if !model.supports_reasoning {
        return false;
    }
    let mut i: usize = 0;
    while i < model.reasoning_options.len()
        invariant
            i <= model.reasoning_options@.len(),
            forall|j: int|
                0 <= j < i ==> (#[trigger] model.reasoning_options@[j])@ != reasoning@,
        decreases model.reasoning_options@.len() - i,
    {
        if same_text(model.reasoning_options[i].as_str(), reasoning) {
            return true;
        }
        i += 1;
    }
    false
}

/// Checks a route against the catalog.
pub fn check_model(models: &Vec<ModelSpec>, model_id: &str, reasoning: &Option<String>) -> (r:
    Result<(), Error>)
    ensures
        fault(r) == route_fault(models@, model_id@, option_view(*reasoning)),
{
    let p: usize = match find_model(models, model_id) {
        Some(p) => p,
        None => {
            let mut message = "model '".to_owned();
            message.append(model_id);
            message.append("' is not in the fixed catalog");
            return Err(Error::InvalidConfig(message));
        },
    };
    proof {
        let q = choose|q: int| model_at(models@, model_id@, q);
        assert(model_at(models@, model_id@, q));
        assert(p == q) by {
            if p < q {
                assert(models@[q].id@ != model_id@);
            } else if q < p {
                assert(models@[p as int].id@ != model_id@);
            }
        }
    }
    if let Some(effort) = reasoning {
        if !offers_effort(&models[p], effort.as_str()) {
            let mut message = "reasoning effort '".to_owned();
            message.append(effort.as_str());
            message.append("' is not available for model '");
            message.append(model_id);
            message.append("'");
            return Err(Error::InvalidConfig(message));
        }
    }
    Ok(())
}

/// What is wrong with a session's configuration, given what is known of its directory.
pub open spec fn session_config_fault(
    models: Seq<ModelSpec>,
    config: SessionConfig,
    cwd_is_absolute: bool,
    cwd_is_dir: bool,
) -> Option<Fault> {
    match route_fault(models, config.model@, option_view(config.reasoning)) {
        Some(e) => Some(e),
        None => if !cwd_is_absolute || !cwd_is_dir {
            Some(Fault::InvalidConfig("session cwd must be an existing absolute directory"@))
        } else {
            None
        },
    }
}

/// Checks the configuration of a session.
pub fn check(
    models: &Vec<ModelSpec>,
    config: &SessionConfig,
    cwd_is_absolute: bool,
    cwd_is_dir: bool,
) -> (r: Result<(), Error>)
    ensures
        fault(r) == session_config_fault(models@, *config, cwd_is_absolute, cwd_is_dir),
{
    check_model(models, config.model.as_str(), &config.reasoning)?;
    if !cwd_is_absolute || !cwd_is_dir {
        return Err(invalid_config("session cwd must be an existing absolute directory"));
    }
    Ok(())
}

/// Refuses a route change of a session that has a turn running.
pub fn check_route(
    models: &Vec<ModelSpec>,
    model_id: &str,
    reasoning: &Option<String>,
    active: bool,
) -> (r: Result<(), Error>)
    ensures
        fault(r) == match route_fault(models@, model_id@, option_view(*reasoning)) {
            Some(e) => Some(e),
            None => if active {
                Some(Fault::Operation("cannot change model during an active prompt"@))
            } else {
                None
            },
        },
{
    check_model(models, model_id, reasoning)?;
    if active {
        return Err(operation("cannot change model during an active prompt"));
    }
    Ok(())
}

/// A text, or null.
pub open spec fn text_or_null(text: Option<Seq<char>>) -> JsonView {
    match text {
        Some(t) => JsonView::Text(t),
        None => JsonView::Null,
    }
}

fn optional_json(text: &Option<String>) -> (r: Json)
    ensures
        r@ == text_or_null(option_view(*text)),
{
    match text {
        Some(t) => text_json(t.as_str()),
        None => Json::Null,
    }
}

/// The client that sessions are opened as.
pub const CLIENT_IDENTIFIER: &'static str = "origin-forge";

/// The metadata that a route is changed with.
pub open spec fn route_metadata(reasoning: Option<Seq<char>>) -> JsonView {
    JsonView::Object(
        seq![
            ("reasoningEffort"@, text_or_null(reasoning)),
            ("originRouteOnly"@, JsonView::Bool(true)),
        ],
    )
}

/// The metadata that a route is changed with.
pub fn route_meta(reasoning: &Option<String>) -> (r: Json)
    ensures
        r@ == route_metadata(option_view(*reasoning)),
{
    let mut fields: Vec<(String, Json)> = Vec::new();
    push_field(&mut fields, "reasoningEffort", optional_json(reasoning));
    push_field(&mut fields, "originRouteOnly", Json::Bool(true));
    proof {
        assert(fields_view(fields@) =~= route_metadata(option_view(*reasoning))->Object_0);
    }
    object_json(fields)
}

/// The metadata that a session is opened with.
pub open spec fn session_metadata(model: Seq<char>, reasoning: Option<Seq<char>>) -> JsonView {
    JsonView::Object(
        seq![
            ("modelId"@, JsonView::Text(model)),
            ("reasoningEffort"@, text_or_null(reasoning)),
            ("clientIdentifier"@, JsonView::Text(CLIENT_IDENTIFIER@)),
            ("yoloMode"@, JsonView::Bool(true)),
        ],
    )
}

/// The metadata that a session is opened with.
pub fn session_meta(config: &SessionConfig) -> (r: Json)
    ensures
        r@ == session_metadata(config.model@, option_view(config.reasoning)),
{
    let mut fields: Vec<(String, Json)> = Vec::new();
    push_field(&mut fields, "modelId", text_json(config.model.as_str()));
    push_field(&mut fields, "reasoningEffort", optional_json(&config.reasoning));
    push_field(&mut fields, "clientIdentifier", text_json(CLIENT_IDENTIFIER));
    push_field(&mut fields, "yoloMode", Json::Bool(true));
    proof {
        assert(fields_view(fields@) =~= session_metadata(
            config.model@,
            option_view(config.reasoning),
        )->Object_0);
    }
    object_json(fields)
}

/// Each text as a document.
pub open spec fn text_documents(texts: Seq<String>) -> Seq<JsonView> {
    Seq::new(texts.len(), |i: int| JsonView::Text(texts[i]@))
}

/// The entry that the engine's catalog has for a model.
pub open spec fn model_document(model: ModelSpec, endpoint: Seq<char>, api_key: Seq<char>) -> JsonView {
    JsonView::Object(
        seq![
            ("id"@, JsonView::Text(model.id@)),
            ("model"@, JsonView::Text(model.id@)),
            ("base_url"@, JsonView::Text(endpoint)),
            ("api_key"@, JsonView::Text(api_key)),
            ("context_window"@, JsonView::Unsigned(model.context_window)),
            ("api_backend"@, JsonView::Text(model.api_backend.name())),
            ("agent_type"@, JsonView::Text("grok-build"@)),
            ("reasoning_effort"@, text_or_null(option_view(model.default_reasoning))),
            ("supports_reasoning_effort"@, JsonView::Bool(model.supports_reasoning)),
            ("reasoning_efforts"@, JsonView::List(text_documents(model.reasoning_options@))),
        ],
    )
}

/// The entry that the engine's catalog has for a model.
pub fn model_entry(model: &ModelSpec, endpoint: &str, api_key: &str) -> (r: Json)
    ensures
        r@ == model_document(*model, endpoint@, api_key@),
{
    let mut efforts: Vec<Json> = Vec::new();
    let mut i: usize = 0;
    proof {
        assert(list_view(efforts@) =~= Seq::<JsonView>::empty());
    }
    while i < model.reasoning_options.len()
        invariant
            i <= model.reasoning_options@.len(),
            list_view(efforts@) =~= text_documents(model.reasoning_options@).take(i as int),
        decreases model.reasoning_options@.len() - i,
    {
        push_item(&mut efforts, text_json(model.reasoning_options[i].as_str()));
        i += 1;
    }
    let mut fields: Vec<(String, Json)> = Vec::new();
    push_field(&mut fields, "id", text_json(model.id.as_str()));
    push_field(&mut fields, "model", text_json(model.id.as_str()));
    push_field(&mut fields, "base_url", text_json(endpoint));
    push_field(&mut fields, "api_key", text_json(api_key));
    push_field(&mut fields, "context_window", Json::Unsigned(model.context_window));
    push_field(&mut fields, "api_backend", text_json(model.api_backend.as_str()));
    push_field(&mut fields, "agent_type", text_json("grok-build"));
    push_field(&mut fields, "reasoning_effort", optional_json(&model.default_reasoning));
    push_field(&mut fields, "supports_reasoning_effort", Json::Bool(model.supports_reasoning));
    push_field(&mut fields, "reasoning_efforts", Json::List(efforts));
    proof {
        assert(list_view(efforts@) =~= text_documents(model.reasoning_options@));
        assert(fields_view(fields@) =~= model_document(*model, endpoint@, api_key@)->Object_0);
    }
    object_json(fields)
}

/// Whether a method changes the life of a session and so has an operation of its own.
pub open spec fn is_lifecycle_method(method: Seq<char>, has_store: bool) -> bool {
    ||| method == "x.ai/session/delete"@
    ||| method == "origin/session/unload"@
    ||| method == "x.ai/session/close"@
    ||| method == "x.ai/session/fork"@
    ||| has_store && method == "x.ai/git/worktree/resume_session"@
}

/// Checks a generic request to an extension.
pub fn check_extension(method: &str, restricted: bool, has_store: bool) -> (r: Result<(), Error>)
    ensures
        fault(r) == if is_blank(method@) {
            Some(Fault::InvalidConfig("extension request method is required"@))
        } else if restricted {
            Some(Fault::Operation("generic extension requests require the Desktop profile"@))
        } else if is_lifecycle_method(method@, has_store) {
            Some(
                Fault::Operation("Session lifecycle methods require their typed Runtime operation"@),
            )
        } else {
            None
        },
{
    if blank(method) {
        return Err(invalid_config("extension request method is required"));
    }
    if restricted {
        return Err(operation("generic extension requests require the Desktop profile"));
    }
    if same_text(method, "x.ai/session/delete") || same_text(method, "origin/session/unload")
        || same_text(method, "x.ai/session/close") || same_text(method, "x.ai/session/fork") || (
    has_store && same_text(method, "x.ai/git/worktree/resume_session")) {
        return Err(operation("Session lifecycle methods require their typed Runtime operation"));
    }
    Ok(())
}

/// Checks a generic notification to an extension.
pub fn check_extension_notification(method: &str, restricted: bool) -> (r: Result<(), Error>)
    ensures
        fault(r) == if is_blank(method@) {
            Some(Fault::InvalidConfig("extension notification method is required"@))
        } else if restricted {
            Some(Fault::Operation("generic extension notifications require the Desktop profile"@))
        } else {
            None
        },
{
    if blank(method) {
        return Err(invalid_config("extension notification method is required"));
    }
    if restricted {
        return Err(operation("generic extension notifications require the Desktop profile"));
    }
    Ok(())
}

/// What is known of a fork before it is made.
#[derive(Clone, Copy, Debug, PartialEq, Eq, Structural)]
pub struct ForkCircumstances {
    /// The target may exist already, and is then verified.
    pub create_or_verify: bool,
    /// The host keeps the state of sessions.
    pub has_store: bool,
    pub source_resident: bool,
    /// The lease of the source is held.
    pub source_held: bool,
}

/// The sessions whose leases a fork takes, in the order in which it takes them, or why it is
/// refused. A loaded source keeps its own lease.
pub open spec fn fork_outcome(source: Seq<char>, target: Seq<char>, at: ForkCircumstances) -> Result<
    Seq<Seq<char>>,
    Fault,
> {
    if source == target {
        Err(Fault::InvalidConfig("fork source and target must be different"@))
    } else if at.create_or_verify && !at.has_store {
        Err(
            Fault::InvalidConfig("create-or-verify fork requires a Host session state authority"@),
        )
    } else if at.has_store && at.source_resident && !at.source_held {
        Err(Fault::Operation("resident fork source is missing its authority lease"@))
    } else if at.has_store && !at.source_resident && at.source_held {
        Err(
            Fault::Operation(
                "fork source teardown is uncertain; its authority lease remains retained"@,
            ),
        )
    } else if at.source_resident {
        Ok(seq![target])
    } else if text_lt(source, target) {
        Ok(seq![source, target])
    } else {
        Ok(seq![target, source])
    }
}

/// What each session is called.
pub open spec fn session_views(ids: Seq<SessionId>) -> Seq<Seq<char>> {
    Seq::new(ids.len(), |i: int| ids[i]@)
}

/// Plans a fork: which leases to take, in stable order.
pub fn plan_fork(source: &SessionId, target: &SessionId, at: ForkCircumstances) -> (r: Result<
    Vec<SessionId>,
    Error,
>)
    ensures
        match fork_outcome(source@, target@, at) {
            Ok(ids) => r is Ok && session_views(r->Ok_0@) == ids,
            Err(e) => fault(r) == Some(e),
        },
{
    if source.same(target) {
        return Err(invalid_config("fork source and target must be different"));
    }
    if at.create_or_verify && !at.has_store {
        return Err(
            invalid_config("create-or-verify fork requires a Host session state authority"),
        );
    }
    if at.has_store && at.source_resident && !at.source_held {
        return Err(operation("resident fork source is missing its authority lease"));
    }
    if at.has_store && !at.source_resident && at.source_held {
        return Err(
            operation("fork source teardown is uncertain; its authority lease remains retained"),
        );
    }
    let mut ids: Vec<SessionId> = Vec::new();
    if at.source_resident {
        ids.push(target.duplicate());
        assert(session_views(ids@) =~= seq![target@]);
    } else if text_before(source.as_str(), target.as_str()) {
        ids.push(source.duplicate());
        ids.push(target.duplicate());
        assert(session_views(ids@) =~= seq![source@, target@]);
    } else {
        ids.push(target.duplicate());
        ids.push(source.duplicate());
        assert(session_views(ids@) =~= seq![target@, source@]);
    }
    Ok(ids)
}

/// A fork and one in the other direction take the leases that they share in the same order, so
/// neither can wait for what the other holds.
pub proof fn law_forks_take_leases_in_one_order(
    a: Seq<char>,
    b: Seq<char>,
    first: ForkCircumstances,
    second: ForkCircumstances,
)
    requires
        fork_outcome(a, b, first) is Ok,
        fork_outcome(b, a, second) is Ok,
        !first.source_resident,
        !second.source_resident,
    ensures
        fork_outcome(a, b, first)->Ok_0 == fork_outcome(b, a, second)->Ok_0,
{
    crate::text::lemma_text_order(a, b, a);
    if text_lt(a, b) {
        crate::text::lemma_text_asymmetric(a, b);
    }
}

/// What is wrong with a native unload.
pub open spec fn unload_fault(success: bool, drained: bool) -> Option<Fault> {
    if !success {
        Some(Fault::Operation("native session unload did not detach the actor"@))
    } else if !drained {
        Some(
            Fault::Operation("native session detached but its actor missed the teardown deadline"@),
        )
    } else {
        None
    }
}

/// An unload is clean exactly where the session detached and its actor was drained; the two
/// failures are told apart.
pub proof fn law_unloads_are_clean_when_drained(success: bool, drained: bool)
    ensures
        unload_fault(success, drained) is None <==> success && drained,
        unload_fault(false, drained) != unload_fault(true, false),
{
    reveal_strlit("native session unload did not detach the actor");
    reveal_strlit("native session detached but its actor missed the teardown deadline");
    assert("native session unload did not detach the actor"@.len()
        != "native session detached but its actor missed the teardown deadline"@.len());
}

/// What comes of a native unload: whether the session is gone from here, and what is reported.
pub fn settle_unload(success: bool, drained: bool) -> (r: (bool, Result<(), Error>))
    ensures
        r.0 == success,
        fault(r.1) == unload_fault(success, drained),
{
    if !success {
        (false, Err(operation("native session unload did not detach the actor")))
    } else if drained {
        (true, Ok(()))
    } else {
        (
            true,
            Err(operation("native session detached but its actor missed the teardown deadline")),
        )
    }
}

/// Whether a session that was never registered is gone from the engine.
pub fn settle_detach(success: bool, drained: bool) -> (r: Result<(), Error>)
    ensures
        fault(r) == if success && drained {
            None
        } else {
            Some(Fault::Operation("native session cleanup did not fully drain the actor"@))
        },
{
    if success && drained {
        Ok(())
    } else {
        Err(operation("native session cleanup did not fully drain the actor"))
    }
}

/// How the failure to set up a session is reported, with what became of the cleanup.
pub open spec fn setup_failure(
    detail: Seq<char>,
    cleanup: Option<Seq<char>>,
    ledger_cleanup: Option<Seq<char>>,
) -> Seq<char> {
    detail + (match cleanup {
        Some(e) => "; native session cleanup failed: "@ + e,
        None => Seq::empty(),
    }) + (match ledger_cleanup {
        Some(e) => "; native Turn ledger cleanup failed: "@ + e,
        None => Seq::empty(),
    })
}

/// An error in words, when there is one.
pub open spec fn error_words(error: Option<Error>) -> Option<Seq<char>> {
    match error {
        Some(e) => Some(e@.words()),
        None => None,
    }
}

/// Reports the failure to set up a session.
pub fn report_setup_failure(
    detail: &str,
    cleanup: &Option<Error>,
    ledger_cleanup: &Option<String>,
) -> (r: Error)
    ensures
        r@ == Fault::Operation(
            setup_failure(
                detail@,
                error_words(*cleanup),
                option_view(*ledger_cleanup),
            ),
        ),
{
    let ghost after_cleanup = match error_words(*cleanup) {
        Some(e) => "; native session cleanup failed: "@ + e,
        None => Seq::empty(),
    };
    let mut message = detail.to_owned();
    if let Some(error) = cleanup {
        message.append("; native session cleanup failed: ");
        message.append(error.describe().as_str());
    }
    assert(message@ =~= detail@ + after_cleanup);
    if let Some(error) = ledger_cleanup {
        message.append("; native Turn ledger cleanup failed: ");
        message.append(error.as_str());
    }
    proof {
        assert(message@ =~= setup_failure(
            detail@,
            error_words(*cleanup),
            option_view(*ledger_cleanup),
        ));
    }
    Error::Operation(message)
}

/// Texts with "; " between them.
pub open spec fn listed(texts: Seq<String>) -> Seq<char>
    decreases texts.len(),
{
    if texts.len() == 0 {
        Seq::empty()
    } else if texts.len() == 1 {
        texts[0]@
    } else {
        listed(texts.drop_last()) + "; "@ + texts.last()@
    }
}

/// What a shutdown reports: the sessions that could not be stopped, if any.
pub fn shutdown_report(failures: &Vec<String>) -> (r: Result<(), Error>)
    ensures
        fault(r) == if failures@.len() == 0 {
            None
        } else {
            Some(
                Fault::Operation(
                    "native runtime shutdown was incomplete: "@ + listed(failures@),
                ),
            )
        },
{
    if failures.len() == 0 {
        return Ok(());
    }
    let mut list = failures[0].clone();
    let mut i: usize = 1;
    proof {
        assert(failures@.take(1)[0]@ == list@);
    }
    while i < failures.len()
        invariant
            1 <= i <= failures@.len(),
            list@ == listed(failures@.take(i as int)),
        decreases failures@.len() - i,
    {
        proof {
            assert(failures@.take(i + 1).drop_last() =~= failures@.take(i as int));
        }
        list.append("; ");
        list.append(failures[i].as_str());
        i += 1;
    }
    proof {
        assert(failures@.take(failures@.len() as int) =~= failures@);
    }
    let mut message = "native runtime shutdown was incomplete: ".to_owned();
    message.append(list.as_str());
    Err(Error::Operation(message))
}

/// A route is in order exactly where its model is in the catalog and offers the reasoning effort
/// that is asked for, if one is. Of several models with one identifier the last one is meant.
pub proof fn law_routes_stay_in_the_catalog(
    models: Seq<ModelSpec>,
    reasoning: Option<Seq<char>>,
    p: int,
    id: Seq<char>,
)
    requires
        0 <= p < models.len(),
        forall|i: int| p < i < models.len() ==> (#[trigger] models[i]).id@ != models[p].id@,
    ensures
        route_fault(models, models[p].id@, reasoning) is None <==> (reasoning is Some
            ==> models[p].supports_reasoning && exists|i: int|
            0 <= i < models[p].reasoning_options@.len() && (
            #[trigger] models[p].reasoning_options@[i])@ == reasoning->Some_0),
        (forall|i: int| 0 <= i < models.len() ==> (#[trigger] models[i]).id@ != id)
            ==> route_fault(models, id, reasoning) is Some,
{
    let own = models[p].id@;
    assert(model_at(models, own, p));
    let q = choose|q: int| model_at(models, own, q);
    assert(model_at(models, own, q));
    assert(p == q) by {
        if p < q {
            assert(models[q].id@ != own);
        }
        if q < p {
            assert(models[p].id@ != own);
        }
    }
    if exists|k: int| model_at(models, id, k) {
        let k = choose|k: int| model_at(models, id, k);
        assert(models[k].id@ == id);
    }
}

/// A runtime's configuration is in order exactly where it names an endpoint, a key and at least one
/// model, and every model has a name and room. A session's is where its route is in order and its
/// directory is there, by an absolute path.
pub proof fn law_configurations_are_complete(
    config: RuntimeConfig,
    models: Seq<ModelSpec>,
    session: SessionConfig,
    cwd_is_absolute: bool,
    cwd_is_dir: bool,
)
    ensures
        config_fault(config) is None <==> {
            &&& !is_blank(config.endpoint@)
            &&& !is_blank(config.api_key@)
            &&& config.models@.len() > 0
            &&& forall|i: int|
                0 <= i < config.models@.len() ==> !is_blank((#[trigger] config.models@[i]).id@)
                    && config.models@[i].context_window > 0
        },
        session_config_fault(models, session, cwd_is_absolute, cwd_is_dir) is None <==> {
            &&& route_fault(models, session.model@, option_view(session.reasoning)) is None
            &&& cwd_is_absolute
            &&& cwd_is_dir
        },
{
}

/// A session is opened with the model and the reasoning effort of its route, and a route is changed
/// with the effort alone.
pub proof fn law_metadata_names_the_route(model: Seq<char>, reasoning: Option<Seq<char>>)
    ensures
        session_metadata(model, reasoning).get("modelId"@) == Some(JsonView::Text(model)),
        session_metadata(model, reasoning).get("reasoningEffort"@) == Some(
            match reasoning {
                Some(effort) => JsonView::Text(effort),
                None => JsonView::Null,
            },
        ),
        route_metadata(reasoning).get("reasoningEffort"@) == Some(
            match reasoning {
                Some(effort) => JsonView::Text(effort),
                None => JsonView::Null,
            },
        ),
        route_metadata(reasoning).get("originRouteOnly"@) == Some(JsonView::Bool(true)),
{
    reveal_with_fuel(lookup, 5);
    reveal_strlit("modelId");
    reveal_strlit("reasoningEffort");
    reveal_strlit("clientIdentifier");
    reveal_strlit("yoloMode");
    reveal_strlit("originRouteOnly");
    assert("reasoningEffort"@[0] == 'r' && "originRouteOnly"@[0] == 'o');
    assert("modelId"@.len() == 7 && "reasoningEffort"@.len() == 15 && "clientIdentifier"@.len()
        == 16 && "yoloMode"@.len() == 8 && "originRouteOnly"@.len() == 15);
}

} // verus!
