//! Reading what the engine says of tool servers, their tools and their answers.

use crate::json::{fields_view, lemma_fields_view, lemma_list_view, list_view, Json, JsonView};
use crate::session::{fault, operation, Error, Fault};
use crate::text::{option_view, same_text};
use crate::text_map::TextMap;
use vstd::prelude::*;

verus! {

/// The text, or nothing.
pub open spec fn or_empty(text: Option<Seq<char>>) -> Seq<char> {
    match text {
        Some(t) => t,
        None => Seq::empty(),
    }
}

/// The value, or another.
pub open spec fn or_bool(value: Option<bool>, other: bool) -> bool {
    match value {
        Some(b) => b,
        None => other,
    }
}

/// What a document says that may be missing.
pub open spec fn part_view(part: Option<&Json>) -> JsonView {
    match part {
        Some(j) => j@,
        None => JsonView::Null,
    }
}

fn part<'a>(of: Option<&'a Json>, key: &str) -> (r: Option<&'a Json>)
    ensures
        part_view(r) == part_view(of).at(key@),
        r is Some == (part_view(of).get(key@) is Some),
{
    match of {
        Some(j) => j.get(key),
        None => None,
    }
}

fn text_part(of: Option<&Json>, key: &str) -> (r: Option<String>)
    ensures
        option_view(r) == part_view(of).at(key@).text(),
{
    match part(of, key) {
        Some(Json::Text(t)) => Some(t.clone()),
        _ => None,
    }
}

fn text_or_empty(of: Option<&Json>, key: &str) -> (r: String)
    ensures
        r@ == or_empty(part_view(of).at(key@).text()),
{
    match text_part(of, key) {
        Some(t) => t,
        None => {
            let nothing = String::new();
            proof {
                assert(nothing@ =~= Seq::<char>::empty());
            }
            nothing
        },
    }
}

fn bool_part(of: Option<&Json>, key: &str, other: bool) -> (r: bool)
    ensures
        r == or_bool(part_view(of).at(key@).boolean(), other),
{
    match part(of, key) {
        Some(Json::Bool(b)) => *b,
        _ => other,
    }
}

/// Whether a field is there and is not null.
pub open spec fn present(document: JsonView, key: Seq<char>) -> bool {
    !(document.at(key) is Null)
}

fn is_present(of: Option<&Json>, key: &str) -> (r: bool)
    ensures
        r == present(part_view(of), key@),
{
    match part(of, key) {
        Some(Json::Null) => false,
        Some(_) => true,
        None => false,
    }
}

/// A second copy of a document, or null.
fn copy_or_null(of: Option<&Json>) -> (r: Json)
    ensures
        r@ == part_view(of),
{
    match of {
        Some(j) => j.duplicate(),
        None => Json::Null,
    }
}

/// What an optional document says.
pub open spec fn optional_json(document: Option<Json>) -> Option<JsonView> {
    match document {
        Some(j) => Some(j@),
        None => None,
    }
}

fn copy_optional(of: Option<&Json>, key: &str) -> (r: Option<Json>)
    ensures
        optional_json(r) == part_view(of).get(key@),
{
    match of {
        Some(j) => match j.get(key) {
            Some(field) => Some(field.duplicate()),
            None => None,
        },
        None => None,
    }
}

/// Where a tool server comes from.
#[derive(Clone, Copy, Debug, PartialEq, Eq, Structural)]
pub enum McpServerSource {
    Local,
    Managed,
    Unknown,
}

/// How a tool server is reached.
#[derive(Clone, Copy, Debug, PartialEq, Eq, Structural)]
pub enum McpTransportKind {
    Stdio,
    Http,
    Sse,
    ManagedGateway,
    Unknown,
}

/// How a tool server does.
#[derive(Clone, Copy, Debug, PartialEq, Eq, Structural)]
pub enum McpServerStatus {
    Ready,
    Initializing,
    SetupRequired,
    Unavailable,
    NeedsAuth,
    Unknown,
}

/// One tool of a server.
#[derive(Debug, PartialEq, Eq)]
pub struct McpToolInfo {
    pub server: String,
    pub name: String,
    pub display_name: Option<String>,
    pub description: Option<String>,
    pub enabled: bool,
    pub meta: Json,
}

/// What a [`McpToolInfo`] says.
pub struct ToolInfoView {
    pub server: Seq<char>,
    pub name: Seq<char>,
    pub display_name: Option<Seq<char>>,
    pub description: Option<Seq<char>>,
    pub enabled: bool,
    pub meta: JsonView,
}

impl View for McpToolInfo {
    type V = ToolInfoView;

    open spec fn view(&self) -> ToolInfoView {
        ToolInfoView {
            server: self.server@,
            name: self.name@,
            display_name: option_view(self.display_name),
            description: option_view(self.description),
            enabled: self.enabled,
            meta: self.meta@,
        }
    }
}

/// What a server and its client agreed on.
#[derive(Debug, PartialEq, Eq)]
pub struct McpNegotiatedCapabilities {
    pub protocol_version: String,
    pub tools: bool,
    pub resources: bool,
    pub prompts: bool,
    pub completions: bool,
    pub logging: bool,
    pub tool_list_changed: bool,
    pub resource_list_changed: bool,
    pub subscriptions: bool,
    pub legacy_resource_subscribe: bool,
    pub prompt_list_changed: bool,
    pub tasks: bool,
    pub extensions: TextMap<Json>,
    pub raw: Json,
}

/// What [`McpNegotiatedCapabilities`] say.
pub struct NegotiatedView {
    pub protocol_version: Seq<char>,
    pub tools: bool,
    pub resources: bool,
    pub prompts: bool,
    pub completions: bool,
    pub logging: bool,
    pub tool_list_changed: bool,
    pub resource_list_changed: bool,
    pub subscriptions: bool,
    pub legacy_resource_subscribe: bool,
    pub prompt_list_changed: bool,
    pub tasks: bool,
    pub extensions: Map<Seq<char>, JsonView>,
    pub raw: JsonView,
}

impl View for McpNegotiatedCapabilities {
    type V = NegotiatedView;

    open spec fn view(&self) -> NegotiatedView {
        NegotiatedView {
            protocol_version: self.protocol_version@,
            tools: self.tools,
            resources: self.resources,
            prompts: self.prompts,
            completions: self.completions,
            logging: self.logging,
            tool_list_changed: self.tool_list_changed,
            resource_list_changed: self.resource_list_changed,
            subscriptions: self.subscriptions,
            legacy_resource_subscribe: self.legacy_resource_subscribe,
            prompt_list_changed: self.prompt_list_changed,
            tasks: self.tasks,
            extensions: self.extensions@.map_values(|j: Json| j@),
            raw: self.raw@,
        }
    }
}

/// The fields of an object by name; of two with one name the later counts.
pub open spec fn fields_map(fields: Seq<(Seq<char>, JsonView)>) -> Map<Seq<char>, JsonView>
    decreases fields.len(),
{
    if fields.len() == 0 {
        Map::empty()
    } else {
        fields_map(fields.drop_last()).insert(fields.last().0, fields.last().1)
    }
}

/// The fields of a document by name; none when it is no object.
pub open spec fn object_map(document: JsonView) -> Map<Seq<char>, JsonView> {
    match document {
        JsonView::Object(fields) => fields_map(fields),
        _ => Map::empty(),
    }
}

/// The extension under which a server offers tasks.
pub const TASKS_EXTENSION: &'static str = "io.modelcontextprotocol/tasks";

/// What a capability says of changes to its list.
pub open spec fn list_changed(capabilities: JsonView, kind: Seq<char>) -> bool {
    or_bool(capabilities.at(kind).at("listChanged"@).boolean(), false)
}

/// What capabilities come to.
pub open spec fn negotiated_of(protocol_version: Seq<char>, capabilities: JsonView) -> NegotiatedView {
    let subscribe = or_bool(capabilities.at("resources"@).at("subscribe"@).boolean(), false);
    let extensions = object_map(capabilities.at("extensions"@));
    NegotiatedView {
        protocol_version,
        tools: present(capabilities, "tools"@),
        resources: present(capabilities, "resources"@),
        prompts: present(capabilities, "prompts"@),
        completions: present(capabilities, "completions"@),
        logging: present(capabilities, "logging"@),
        tool_list_changed: list_changed(capabilities, "tools"@),
        resource_list_changed: list_changed(capabilities, "resources"@),
        subscriptions: list_changed(capabilities, "tools"@) || list_changed(
            capabilities,
            "prompts"@,
        ) || list_changed(capabilities, "resources"@) || subscribe,
        legacy_resource_subscribe: subscribe,
        prompt_list_changed: list_changed(capabilities, "prompts"@),
        tasks: extensions.dom().contains(TASKS_EXTENSION@),
        extensions,
        raw: capabilities,
    }
}

/// What a session's server negotiated, when it says so.
pub open spec fn negotiated_read(session: JsonView) -> Option<NegotiatedView> {
    match session.get("negotiated"@) {
        None => None,
        Some(negotiated) => match negotiated.at("protocolVersion"@).text() {
            None => None,
            Some(version) => match negotiated.get("capabilities"@) {
                None => None,
                Some(capabilities) => Some(negotiated_of(version, capabilities)),
            },
        },
    }
}

/// A tool server as a session sees it.
#[derive(Debug, PartialEq, Eq)]
pub struct McpServerSummary {
    pub name: String,
    pub display_name: Option<String>,
    pub source: McpServerSource,
    pub transport: McpTransportKind,
    pub enabled: bool,
    pub status: Option<McpServerStatus>,
    pub auth_required: bool,
    pub setup_required: bool,
    pub tools: Vec<McpToolInfo>,
    pub negotiated: Option<McpNegotiatedCapabilities>,
}

/// What a [`McpServerSummary`] says.
pub struct ServerSummaryView {
    pub name: Seq<char>,
    pub display_name: Option<Seq<char>>,
    pub source: McpServerSource,
    pub transport: McpTransportKind,
    pub enabled: bool,
    pub status: Option<McpServerStatus>,
    pub auth_required: bool,
    pub setup_required: bool,
    pub tools: Seq<ToolInfoView>,
    pub negotiated: Option<NegotiatedView>,
}

/// What each tool says.
pub open spec fn tool_views(tools: Seq<McpToolInfo>) -> Seq<ToolInfoView> {
    Seq::new(tools.len(), |i: int| tools[i]@)
}

impl View for McpServerSummary {
    type V = ServerSummaryView;

    open spec fn view(&self) -> ServerSummaryView {
        ServerSummaryView {
            name: self.name@,
            display_name: option_view(self.display_name),
            source: self.source,
            transport: self.transport,
            enabled: self.enabled,
            status: self.status,
            auth_required: self.auth_required,
            setup_required: self.setup_required,
            tools: tool_views(self.tools@),
            negotiated: match self.negotiated {
                Some(n) => Some(n@),
                None => None,
            },
        }
    }
}

/// A tool, by its entry. A tool that does not say otherwise is enabled.
pub open spec fn tool_read(server: Seq<char>, t: JsonView) -> ToolInfoView {
    ToolInfoView {
        server,
        name: or_empty(t.at("name"@).text()),
        display_name: t.at("displayName"@).text(),
        description: t.at("description"@).text(),
        enabled: or_bool(t.at("enabled"@).boolean(), true),
        meta: t.at("_meta"@),
    }
}

/// The source that a name stands for.
pub open spec fn source_named(name: Option<Seq<char>>) -> McpServerSource {
    if name == Some("local"@) {
        McpServerSource::Local
    } else if name == Some("managed"@) {
        McpServerSource::Managed
    } else {
        McpServerSource::Unknown
    }
}

/// The transport that a name stands for.
pub open spec fn transport_named(name: Option<Seq<char>>) -> McpTransportKind {
    if name == Some("stdio"@) {
        McpTransportKind::Stdio
    } else if name == Some("http"@) {
        McpTransportKind::Http
    } else if name == Some("sse"@) {
        McpTransportKind::Sse
    } else if name == Some("managedGateway"@) {
        McpTransportKind::ManagedGateway
    } else {
        McpTransportKind::Unknown
    }
}

/// The status that a name stands for.
pub open spec fn status_named(name: Seq<char>) -> McpServerStatus {
    if name == "ready"@ {
        McpServerStatus::Ready
    } else if name == "initializing"@ {
        McpServerStatus::Initializing
    } else if name == "setuprequired"@ || name == "setup_required"@ {
        McpServerStatus::SetupRequired
    } else if name == "unavailable"@ {
        McpServerStatus::Unavailable
    } else if name == "needsauth"@ || name == "needs_auth"@ {
        McpServerStatus::NeedsAuth
    } else {
        McpServerStatus::Unknown
    }
}

/// The tools of a session's server.
pub open spec fn tools_read(server: Seq<char>, tools: JsonView) -> Seq<ToolInfoView> {
    match tools.list() {
        Some(items) => Seq::new(items.len(), |i: int| tool_read(server, items[i])),
        None => Seq::empty(),
    }
}

/// A server, by its entry in the catalog.
pub open spec fn server_read(v: JsonView) -> ServerSummaryView {
    let session = v.at("session"@);
    let name = or_empty(v.at("name"@).text());
    ServerSummaryView {
        name,
        display_name: v.at("displayName"@).text(),
        source: source_named(v.at("source"@).text()),
        transport: transport_named(v.at("type"@).text()),
        enabled: or_bool(session.at("enabled"@).boolean(), false),
        status: match session.at("status"@).text() {
            Some(status) => Some(status_named(status)),
            None => None,
        },
        auth_required: or_bool(session.at("authRequired"@).boolean(), false),
        setup_required: or_bool(session.at("setupRequired"@).boolean(), false),
        tools: tools_read(name, session.at("tools"@)),
        negotiated: negotiated_read(session),
    }
}

fn read_source(name: &Option<String>) -> (r: McpServerSource)
    ensures
        r == source_named(option_view(*name)),
{
    match name {
        Some(n) => if same_text(n.as_str(), "local") {
            McpServerSource::Local
        } else if same_text(n.as_str(), "managed") {
            McpServerSource::Managed
        } else {
            McpServerSource::Unknown
        },
        None => McpServerSource::Unknown,
    }
}

fn read_transport(name: &Option<String>) -> (r: McpTransportKind)
    ensures
        r == transport_named(option_view(*name)),
{
    match name {
        Some(n) => if same_text(n.as_str(), "stdio") {
            McpTransportKind::Stdio
        } else if same_text(n.as_str(), "http") {
            McpTransportKind::Http
        } else if same_text(n.as_str(), "sse") {
            McpTransportKind::Sse
        } else if same_text(n.as_str(), "managedGateway") {
            McpTransportKind::ManagedGateway
        } else {
            McpTransportKind::Unknown
        },
        None => McpTransportKind::Unknown,
    }
}

fn read_status(name: &Option<String>) -> (r: Option<McpServerStatus>)
    ensures
        r == match option_view(*name) {
            Some(status) => Some(status_named(status)),
            None => None,
        },
{
    match name {
        None => None,
        Some(n) => Some(
            if same_text(n.as_str(), "ready") {
                McpServerStatus::Ready
            } else if same_text(n.as_str(), "initializing") {
                McpServerStatus::Initializing
            } else if same_text(n.as_str(), "setuprequired") || same_text(
                n.as_str(),
                "setup_required",
            ) {
                McpServerStatus::SetupRequired
            } else if same_text(n.as_str(), "unavailable") {
                McpServerStatus::Unavailable
            } else if same_text(n.as_str(), "needsauth") || same_text(n.as_str(), "needs_auth") {
                McpServerStatus::NeedsAuth
            } else {
                McpServerStatus::Unknown
            },
        ),
    }
}

fn read_tool(server: &str, t: &Json) -> (r: McpToolInfo)
    ensures
        r@ == tool_read(server@, t@),
{
    McpToolInfo {
        server: server.to_owned(),
        name: text_or_empty(Some(t), "name"),
        display_name: text_part(Some(t), "displayName"),
        description: text_part(Some(t), "description"),
        enabled: bool_part(Some(t), "enabled", true),
        meta: copy_or_null(part(Some(t), "_meta")),
    }
}

fn read_tools(server: &str, tools: Option<&Json>) -> (r: Vec<McpToolInfo>)
    ensures
        tool_views(r@) == tools_read(server@, part_view(tools)),
{
    let mut out: Vec<McpToolInfo> = Vec::new();
    match tools {
        Some(Json::List(items)) => {
            proof {
                lemma_list_view(items@);
            }
            let mut i: usize = 0;
            while i < items.len()
                invariant
                    i <= items@.len(),
                    out@.len() == i,
                    forall|j: int|
                        0 <= j < i ==> (#[trigger] out@[j])@ == tool_read(server@, items@[j]@),
                decreases items@.len() - i,
            {
                out.push(read_tool(server, &items[i]));
                i += 1;
            }
            proof {
                assert(tool_views(out@) =~= tools_read(server@, part_view(tools)));
            }
        },
        _ => {
            proof {
                assert(tool_views(out@) =~= Seq::empty());
            }
        },
    }
    out
}

fn read_object_map(document: Option<&Json>) -> (r: TextMap<Json>)
    ensures
        r@.map_values(|j: Json| j@) == object_map(part_view(document)),
{
    let mut out: TextMap<Json> = TextMap::new();
    match document {
        Some(Json::Object(fields)) => {
            let ghost all = fields_view(fields@);
            let mut i: usize = 0;
            proof {
                lemma_fields_view(fields@);
                assert(all.take(0) =~= Seq::empty());
                assert(out@.map_values(|j: Json| j@) =~= Map::empty());
            }
            while i < fields.len()
                invariant
                    i <= fields@.len(),
                    all.len() == fields@.len(),
                    forall|j: int|
                        0 <= j < fields@.len() ==> #[trigger] all[j] == (
                            fields@[j].0@,
                            fields@[j].1@,
                        ),
                    out@.map_values(|j: Json| j@) == fields_map(all.take(i as int)),
                decreases fields@.len() - i,
            {
                let ghost before = out@.map_values(|j: Json| j@);
                out.insert(fields[i].0.as_str(), fields[i].1.duplicate());
                proof {
                    let added = all[i as int];
                    assert(all.take(i + 1).drop_last() =~= all.take(i as int));
                    assert(all.take(i + 1).last() == added);
                    assert(out@.map_values(|j: Json| j@) =~= before.insert(added.0, added.1));
                }
                i += 1;
            }
            proof {
                assert(all.take(all.len() as int) =~= all);
            }
        },
        _ => {
            proof {
                assert(out@.map_values(|j: Json| j@) =~= Map::empty());
            }
        },
    }
    out
}

fn read_negotiated(session: Option<&Json>) -> (r: Option<McpNegotiatedCapabilities>)
    ensures
        match r {
            Some(n) => negotiated_read(part_view(session)) == Some(n@),
            None => negotiated_read(part_view(session)) is None,
        },
{
    let negotiated = part(session, "negotiated");
    if negotiated.is_none() {
        return None;
    }
    let protocol_version = match text_part(negotiated, "protocolVersion") {
        Some(version) => version,
        None => {
            return None;
        },
    };
    let capabilities = part(negotiated, "capabilities");
    if capabilities.is_none() {
        return None;
    }
    let tools = part(capabilities, "tools");
    let prompts = part(capabilities, "prompts");
    let resources = part(capabilities, "resources");
    let tool_list_changed = bool_part(tools, "listChanged", false);
    let prompt_list_changed = bool_part(prompts, "listChanged", false);
    let resource_list_changed = bool_part(resources, "listChanged", false);
    let subscribe = bool_part(resources, "subscribe", false);
    let extensions = read_object_map(part(capabilities, "extensions"));
    let tasks = extensions.contains_key(TASKS_EXTENSION);
    let r = McpNegotiatedCapabilities {
        protocol_version,
        tools: is_present(capabilities, "tools"),
        resources: is_present(capabilities, "resources"),
        prompts: is_present(capabilities, "prompts"),
        completions: is_present(capabilities, "completions"),
        logging: is_present(capabilities, "logging"),
        tool_list_changed,
        resource_list_changed,
        subscriptions: tool_list_changed || prompt_list_changed || resource_list_changed
            || subscribe,
        legacy_resource_subscribe: subscribe,
        prompt_list_changed,
        tasks,
        extensions,
        raw: copy_or_null(capabilities),
    };
    proof {
        assert(extensions@.map_values(|j: Json| j@).dom() =~= extensions@.dom());
    }
    Some(r)
}

fn read_server(v: &Json) -> (r: McpServerSummary)
    ensures
        r@ == server_read(v@),
{
    let session = part(Some(v), "session");
    let name = text_or_empty(Some(v), "name");
    let tools = read_tools(name.as_str(), part(session, "tools"));
    McpServerSummary {
        name,
        display_name: text_part(Some(v), "displayName"),
        source: read_source(&text_part(Some(v), "source")),
        transport: read_transport(&text_part(Some(v), "type")),
        enabled: bool_part(session, "enabled", false),
        status: read_status(&text_part(session, "status")),
        auth_required: bool_part(session, "authRequired", false),
        setup_required: bool_part(session, "setupRequired", false),
        tools,
        negotiated: read_negotiated(session),
    }
}

/// What each server says.
pub open spec fn summary_views(servers: Seq<McpServerSummary>) -> Seq<ServerSummaryView> {
    Seq::new(servers.len(), |i: int| servers[i]@)
}

/// Reads the catalog of servers. What an entry leaves out has its default.
pub fn parse_mcp_servers(value: &Json) -> (r: Result<Vec<McpServerSummary>, Error>)
    ensures
        match value@.at("servers"@).list() {
            None => fault(r) == Some(Fault::Operation("invalid MCP catalog response"@)),
            Some(entries) => r is Ok && summary_views(r->Ok_0@) == Seq::new(
                entries.len(),
                |i: int| server_read(entries[i]),
            ),
        },
{
    match part(Some(value), "servers") {
        Some(Json::List(entries)) => {
            proof {
                lemma_list_view(entries@);
            }
            let mut out: Vec<McpServerSummary> = Vec::new();
            let mut i: usize = 0;
            while i < entries.len()
                invariant
                    i <= entries@.len(),
                    out@.len() == i,
                    forall|j: int|
                        0 <= j < i ==> (#[trigger] out@[j])@ == server_read(entries@[j]@),
                decreases entries@.len() - i,
            {
                out.push(read_server(&entries[i]));
                i += 1;
            }
            proof {
                let all = list_view(entries@);
                assert(summary_views(out@) =~= Seq::new(
                    all.len(),
                    |i: int| server_read(all[i]),
                ));
            }
            Ok(out)
        },
        _ => Err(operation("invalid MCP catalog response")),
    }
}

/// One piece of a tool's answer.
#[derive(Debug, PartialEq, Eq)]
pub enum McpContent {
    Text { text: String, raw: Json },
    Image { data: String, mime_type: String, raw: Json },
    Audio { data: String, mime_type: String, raw: Json },
    EmbeddedResource { resource: Json, raw: Json },
    ResourceLink { uri: String, name: String, mime_type: Option<String>, raw: Json },
    Unknown { raw: Json },
}

/// What a [`McpContent`] says.
#[allow(inconsistent_fields)]
pub enum ContentView {
    Text { text: Seq<char>, raw: JsonView },
    Image { data: Seq<char>, mime_type: Seq<char>, raw: JsonView },
    Audio { data: Seq<char>, mime_type: Seq<char>, raw: JsonView },
    EmbeddedResource { resource: JsonView, raw: JsonView },
    ResourceLink { uri: Seq<char>, name: Seq<char>, link_type: Option<Seq<char>>, raw: JsonView },
    Unknown { raw: JsonView },
}

impl View for McpContent {
    type V = ContentView;

    open spec fn view(&self) -> ContentView {
        match self {
            McpContent::Text { text, raw } => ContentView::Text { text: text@, raw: raw@ },
            McpContent::Image { data, mime_type, raw } => ContentView::Image {
                data: data@,
                mime_type: mime_type@,
                raw: raw@,
            },
            McpContent::Audio { data, mime_type, raw } => ContentView::Audio {
                data: data@,
                mime_type: mime_type@,
                raw: raw@,
            },
            McpContent::EmbeddedResource { resource, raw } => ContentView::EmbeddedResource {
                resource: resource@,
                raw: raw@,
            },
            McpContent::ResourceLink { uri, name, mime_type, raw } => ContentView::ResourceLink {
                uri: uri@,
                name: name@,
                link_type: option_view(*mime_type),
                raw: raw@,
            },
            McpContent::Unknown { raw } => ContentView::Unknown { raw: raw@ },
        }
    }
}

/// A piece of an answer, by its type.
pub open spec fn content_read(raw: JsonView) -> ContentView {
    let kind = raw.at("type"@).text();
    if kind == Some("text"@) {
        ContentView::Text { text: or_empty(raw.at("text"@).text()), raw }
    } else if kind == Some("image"@) {
        ContentView::Image {
            data: or_empty(raw.at("data"@).text()),
            mime_type: or_empty(raw.at("mimeType"@).text()),
            raw,
        }
    } else if kind == Some("audio"@) {
        ContentView::Audio {
            data: or_empty(raw.at("data"@).text()),
            mime_type: or_empty(raw.at("mimeType"@).text()),
            raw,
        }
    } else if kind == Some("resource"@) {
        ContentView::EmbeddedResource { resource: raw.at("resource"@), raw }
    } else if kind == Some("resource_link"@) || kind == Some("resourceLink"@) {
        ContentView::ResourceLink {
            uri: or_empty(raw.at("uri"@).text()),
            name: or_empty(raw.at("name"@).text()),
            link_type: raw.at("mimeType"@).text(),
            raw,
        }
    } else {
        ContentView::Unknown { raw }
    }
}

fn read_content(raw: &Json) -> (r: McpContent)
    ensures
        r@ == content_read(raw@),
{
    let copy = raw.duplicate();
    let kind = match text_part(Some(raw), "type") {
        Some(kind) => kind,
        None => {
            return McpContent::Unknown { raw: copy };
        },
    };
    if same_text(kind.as_str(), "text") {
        McpContent::Text { text: text_or_empty(Some(raw), "text"), raw: copy }
    } else if same_text(kind.as_str(), "image") {
        McpContent::Image {
            data: text_or_empty(Some(raw), "data"),
            mime_type: text_or_empty(Some(raw), "mimeType"),
            raw: copy,
        }
    } else if same_text(kind.as_str(), "audio") {
        McpContent::Audio {
            data: text_or_empty(Some(raw), "data"),
            mime_type: text_or_empty(Some(raw), "mimeType"),
            raw: copy,
        }
    } else if same_text(kind.as_str(), "resource") {
        McpContent::EmbeddedResource {
            resource: copy_or_null(part(Some(raw), "resource")),
            raw: copy,
        }
    } else if same_text(kind.as_str(), "resource_link") || same_text(
        kind.as_str(),
        "resourceLink",
    ) {
        McpContent::ResourceLink {
            uri: text_or_empty(Some(raw), "uri"),
            name: text_or_empty(Some(raw), "name"),
            mime_type: text_part(Some(raw), "mimeType"),
            raw: copy,
        }
    } else {
        McpContent::Unknown { raw: copy }
    }
}

/// A tool's answer.
#[derive(Debug, PartialEq, Eq)]
pub struct McpToolResult {
    pub content: Vec<McpContent>,
    pub structured_content: Option<Json>,
    pub is_error: Option<bool>,
    pub meta: Option<Json>,
}

/// What each piece says.
pub open spec fn content_views(content: Seq<McpContent>) -> Seq<ContentView> {
    Seq::new(content.len(), |i: int| content[i]@)
}

/// What a [`McpToolResult`] says.
pub struct ToolResultView {
    pub content: Seq<ContentView>,
    pub structured_content: Option<JsonView>,
    pub is_error: Option<bool>,
    pub meta: Option<JsonView>,
}

impl View for McpToolResult {
    type V = ToolResultView;

    open spec fn view(&self) -> ToolResultView {
        ToolResultView {
            content: content_views(self.content@),
            structured_content: optional_json(self.structured_content),
            is_error: self.is_error,
            meta: optional_json(self.meta),
        }
    }
}

/// A tool's answer, by its document.
pub open spec fn tool_result_read(v: JsonView) -> Result<ToolResultView, Fault> {
    match v.at("content"@).list() {
        None => Err(Fault::Operation("invalid MCP call response"@)),
        Some(blocks) => Ok(
            ToolResultView {
                content: Seq::new(blocks.len(), |i: int| content_read(blocks[i])),
                structured_content: v.get("structuredContent"@),
                is_error: v.at("isError"@).boolean(),
                meta: v.get("_meta"@),
            },
        ),
    }
}

/// Reads a tool's answer.
pub fn parse_tool_result(v: &Json) -> (r: Result<McpToolResult, Error>)
    ensures
        match tool_result_read(v@) {
            Ok(result) => r is Ok && r->Ok_0@ == result,
            Err(e) => fault(r) == Some(e),
        },
{
    match part(Some(v), "content") {
        Some(Json::List(blocks)) => {
            proof {
                lemma_list_view(blocks@);
            }
            let mut content: Vec<McpContent> = Vec::new();
            let mut i: usize = 0;
            while i < blocks.len()
                invariant
                    i <= blocks@.len(),
                    content@.len() == i,
                    forall|j: int|
                        0 <= j < i ==> (#[trigger] content@[j])@ == content_read(blocks@[j]@),
                decreases blocks@.len() - i,
            {
                content.push(read_content(&blocks[i]));
                i += 1;
            }
            proof {
                assert(content_views(content@) =~= tool_result_read(v@)->Ok_0.content);
            }
            let is_error = match part(Some(v), "isError") {
                Some(Json::Bool(b)) => Some(*b),
                _ => None,
            };
            Ok(
                McpToolResult {
                    content,
                    structured_content: copy_optional(Some(v), "structuredContent"),
                    is_error,
                    meta: copy_optional(Some(v), "_meta"),
                },
            )
        },
        _ => Err(operation("invalid MCP call response")),
    }
}

/// One piece of a resource.
#[derive(Debug, PartialEq, Eq)]
pub struct McpReadResourceContent {
    pub uri: Option<String>,
    pub mime_type: Option<String>,
    pub text: Option<String>,
    pub blob: Option<String>,
    pub meta: Option<Json>,
    pub raw: Json,
}

/// What a [`McpReadResourceContent`] says.
pub struct ResourceView {
    pub uri: Option<Seq<char>>,
    pub mime_type: Option<Seq<char>>,
    pub text: Option<Seq<char>>,
    pub blob: Option<Seq<char>>,
    pub meta: Option<JsonView>,
    pub raw: JsonView,
}

impl View for McpReadResourceContent {
    type V = ResourceView;

    open spec fn view(&self) -> ResourceView {
        ResourceView {
            uri: option_view(self.uri),
            mime_type: option_view(self.mime_type),
            text: option_view(self.text),
            blob: option_view(self.blob),
            meta: optional_json(self.meta),
            raw: self.raw@,
        }
    }
}

/// The content of a resource.
#[derive(Debug, PartialEq, Eq)]
pub struct McpReadResourceResult {
    pub contents: Vec<McpReadResourceContent>,
}

/// What each piece says.
pub open spec fn resource_views(contents: Seq<McpReadResourceContent>) -> Seq<ResourceView> {
    Seq::new(contents.len(), |i: int| contents[i]@)
}

/// A piece of a resource, by its document.
pub open spec fn resource_read(x: JsonView) -> ResourceView {
    ResourceView {
        uri: x.at("uri"@).text(),
        mime_type: x.at("mimeType"@).text(),
        text: x.at("text"@).text(),
        blob: x.at("blob"@).text(),
        meta: x.get("_meta"@),
        raw: x,
    }
}

/// Reads the content of a resource.
pub fn parse_resource_result(v: &Json) -> (r: Result<McpReadResourceResult, Error>)
    ensures
        match v@.at("contents"@).list() {
            None => fault(r) == Some(Fault::Operation("invalid MCP resource response"@)),
            Some(blocks) => r is Ok && resource_views(r->Ok_0.contents@) == Seq::new(
                blocks.len(),
                |i: int| resource_read(blocks[i]),
            ),
        },
{
    match part(Some(v), "contents") {
        Some(Json::List(blocks)) => {
            proof {
                lemma_list_view(blocks@);
            }
            let mut contents: Vec<McpReadResourceContent> = Vec::new();
            let mut i: usize = 0;
            while i < blocks.len()
                invariant
                    i <= blocks@.len(),
                    contents@.len() == i,
                    forall|j: int|
                        0 <= j < i ==> (#[trigger] contents@[j])@ == resource_read(blocks@[j]@),
                decreases blocks@.len() - i,
            {
                let x = &blocks[i];
                contents.push(
                    McpReadResourceContent {
                        uri: text_part(Some(x), "uri"),
                        mime_type: text_part(Some(x), "mimeType"),
                        text: text_part(Some(x), "text"),
                        blob: text_part(Some(x), "blob"),
                        meta: copy_optional(Some(x), "_meta"),
                        raw: x.duplicate(),
                    },
                );
                i += 1;
            }
            proof {
                let all = list_view(blocks@);
                assert(resource_views(contents@) =~= Seq::new(
                    all.len(),
                    |i: int| resource_read(all[i]),
                ));
            }
            Ok(McpReadResourceResult { contents })
        },
        _ => Err(operation("invalid MCP resource response")),
    }
}

/// How a subscription ended.
#[derive(Debug, PartialEq, Eq)]
pub enum McpSubscriptionEnd {
    Graceful,
    Abrupt,
    Cancelled,
    Lagged { capacity: usize },
    Error { message: String },
}

/// What a [`McpSubscriptionEnd`] says.
pub enum SubscriptionEndView {
    Graceful,
    Abrupt,
    Cancelled,
    Lagged { capacity: u64 },
    Error { message: Seq<char> },
}

impl View for McpSubscriptionEnd {
    type V = SubscriptionEndView;

    open spec fn view(&self) -> SubscriptionEndView {
        match self {
            McpSubscriptionEnd::Graceful => SubscriptionEndView::Graceful,
            McpSubscriptionEnd::Abrupt => SubscriptionEndView::Abrupt,
            McpSubscriptionEnd::Cancelled => SubscriptionEndView::Cancelled,
            McpSubscriptionEnd::Lagged { capacity } => SubscriptionEndView::Lagged {
                capacity: *capacity as u64,
            },
            McpSubscriptionEnd::Error { message } => SubscriptionEndView::Error {
                message: message@,
            },
        }
    }
}

/// How a subscription ended, by its last document. One that ends without a word ended abruptly.
pub open spec fn subscription_end_read(value: Option<JsonView>) -> Result<
    SubscriptionEndView,
    Fault,
> {
    match value {
        None => Ok(SubscriptionEndView::Abrupt),
        Some(value) => {
            let reason = value.at("reason"@).text();
            if reason == Some("graceful"@) {
                Ok(SubscriptionEndView::Graceful)
            } else if reason == Some("abrupt"@) {
                Ok(SubscriptionEndView::Abrupt)
            } else if reason == Some("cancelled"@) {
                Ok(SubscriptionEndView::Cancelled)
            } else if reason == Some("lagged"@) {
                match value.at("capacity"@).unsigned() {
                    Some(capacity) => if capacity <= usize::MAX {
                        Ok(SubscriptionEndView::Lagged { capacity })
                    } else {
                        Err(Fault::Operation("invalid MCP subscription capacity"@))
                    },
                    None => Err(Fault::Operation("invalid MCP subscription capacity"@)),
                }
            } else if reason == Some("error"@) {
                match value.at("message"@).text() {
                    Some(message) => Ok(SubscriptionEndView::Error { message }),
                    None => Err(Fault::Operation("invalid MCP subscription error"@)),
                }
            } else {
                Err(Fault::Operation("invalid MCP subscription terminal event"@))
            }
        },
    }
}

/// Reads how a subscription ended.
pub fn parse_mcp_subscription_end(value: Option<&Json>) -> (r: Result<McpSubscriptionEnd, Error>)
    ensures
        match subscription_end_read(
            match value {
                Some(j) => Some(j@),
                None => None,
            },
        ) {
            Ok(end) => r is Ok && r->Ok_0@ == end,
            Err(e) => fault(r) == Some(e),
        },
{
    if value.is_none() {
        return Ok(McpSubscriptionEnd::Abrupt);
    }
    let reason = match text_part(value, "reason") {
        Some(reason) => reason,
        None => {
            return Err(operation("invalid MCP subscription terminal event"));
        },
    };
    if same_text(reason.as_str(), "graceful") {
        return Ok(McpSubscriptionEnd::Graceful);
    }
    if same_text(reason.as_str(), "abrupt") {
        return Ok(McpSubscriptionEnd::Abrupt);
    }
    if same_text(reason.as_str(), "cancelled") {
        return Ok(McpSubscriptionEnd::Cancelled);
    }
    if same_text(reason.as_str(), "lagged") {
        if let Some(Json::Unsigned(capacity)) = part(value, "capacity") {
            if *capacity <= usize::MAX as u64 {
                return Ok(McpSubscriptionEnd::Lagged { capacity: *capacity as usize });
            }
        }
        return Err(operation("invalid MCP subscription capacity"));
    }
    if same_text(reason.as_str(), "error") {
        return match text_part(value, "message") {
            Some(message) => Ok(McpSubscriptionEnd::Error { message }),
            None => Err(operation("invalid MCP subscription error")),
        };
    }
    Err(operation("invalid MCP subscription terminal event"))
}

/// Where a server stands with its authentication.
#[derive(Debug, PartialEq, Eq)]
pub enum McpAuthenticationState {
    Authenticated,
    NeedsAuth,
    SetupRequired,
    Failed,
    Unknown(String),
}

/// Reads where a server stands with its authentication.
pub fn parse_mcp_authentication_state(status: &str) -> (r: McpAuthenticationState)
    ensures
        if status@ == "authenticated"@ {
            r is Authenticated
        } else if status@ == "needs_auth"@ {
            r is NeedsAuth
        } else if status@ == "setup_required"@ {
            r is SetupRequired
        } else if status@ == "failed"@ {
            r is Failed
        } else {
            r matches McpAuthenticationState::Unknown(other) && other@ == status@
        },
{
    if same_text(status, "authenticated") {
        McpAuthenticationState::Authenticated
    } else if same_text(status, "needs_auth") {
        McpAuthenticationState::NeedsAuth
    } else if same_text(status, "setup_required") {
        McpAuthenticationState::SetupRequired
    } else if same_text(status, "failed") {
        McpAuthenticationState::Failed
    } else {
        McpAuthenticationState::Unknown(status.to_owned())
    }
}

/// A server is what its entry says: where its source, transport or status is not named, or by a
/// name that is not known, it is unknown or absent. A server that does not say so is not enabled
/// and needs neither authentication nor setup, and its tools, which are its own, are enabled unless
/// they say otherwise.
pub proof fn law_servers_are_what_their_entry_says(v: JsonView)
    ensures
        ({
            let server = server_read(v);
            let session = v.at("session"@);
            let source = v.at("source"@).text();
            let transport = v.at("type"@).text();
            &&& v.at("name"@).text() is Some ==> v.at("name"@).text() == Some(server.name)
            &&& v.at("name"@).text() is None ==> server.name.len() == 0
            &&& server.display_name == v.at("displayName"@).text()
            &&& server.source is Local <==> source == Some("local"@)
            &&& server.source is Managed <==> source == Some("managed"@)
            &&& server.transport is Stdio <==> transport == Some("stdio"@)
            &&& server.transport is Http <==> transport == Some("http"@)
            &&& server.transport is Sse <==> transport == Some("sse"@)
            &&& server.transport is ManagedGateway <==> transport == Some("managedGateway"@)
            &&& server.enabled <==> session.at("enabled"@).boolean() == Some(true)
            &&& server.auth_required <==> session.at("authRequired"@).boolean() == Some(true)
            &&& server.setup_required <==> session.at("setupRequired"@).boolean() == Some(true)
            &&& server.status is Some <==> session.at("status"@).text() is Some
            &&& session.at("tools"@).list() is None ==> server.tools.len() == 0
            &&& session.at("tools"@).list() matches Some(items) ==> {
                &&& server.tools.len() == items.len()
                &&& forall|i: int|
                    0 <= i < items.len() ==> {
                        let tool = #[trigger] server.tools[i];
                        &&& tool.server == server.name
                        &&& tool.enabled <==> items[i].at("enabled"@).boolean() != Some(false)
                        &&& items[i].at("name"@).text() is Some ==> items[i].at("name"@).text()
                            == Some(tool.name)
                        &&& tool.display_name == items[i].at("displayName"@).text()
                        &&& tool.description == items[i].at("description"@).text()
                        &&& tool.meta == items[i].at("_meta"@)
                    }
            }
        }),
{
    reveal_strlit("local");
    reveal_strlit("managed");
    reveal_strlit("stdio");
    reveal_strlit("http");
    reveal_strlit("sse");
    reveal_strlit("managedGateway");
    assert("local"@.len() == 5 && "managed"@.len() == 7 && "stdio"@.len() == 5 && "http"@.len() == 4
        && "sse"@.len() == 3 && "managedGateway"@.len() == 14);
}

/// A status is the one that its name stands for, in either spelling, and no other.
pub proof fn law_server_statuses_have_names(name: Seq<char>)
    ensures
        status_named(name) is Ready <==> name == "ready"@,
        status_named(name) is Initializing <==> name == "initializing"@,
        status_named(name) is SetupRequired <==> name == "setuprequired"@ || name
            == "setup_required"@,
        status_named(name) is Unavailable <==> name == "unavailable"@,
        status_named(name) is NeedsAuth <==> name == "needsauth"@ || name == "needs_auth"@,
{
    reveal_strlit("ready");
    reveal_strlit("initializing");
    reveal_strlit("setuprequired");
    reveal_strlit("setup_required");
    reveal_strlit("unavailable");
    reveal_strlit("needsauth");
    reveal_strlit("needs_auth");
    assert("ready"@.len() == 5 && "initializing"@.len() == 12 && "setuprequired"@.len() == 13
        && "setup_required"@.len() == 14 && "unavailable"@.len() == 11 && "needsauth"@.len() == 9
        && "needs_auth"@.len() == 10);
}

/// A server offers what its capabilities hold, and no more: a feature that is not there is not
/// offered. It can be subscribed to exactly where one of its lists can change or its resources can
/// be subscribed to, and it has tasks exactly where it names that extension.
pub proof fn law_capabilities_are_those_offered(version: Seq<char>, capabilities: JsonView)
    ensures
        ({
            let n = negotiated_of(version, capabilities);
            let changes = |kind: Seq<char>|
                capabilities.at(kind).at("listChanged"@).boolean() == Some(true);
            &&& n.protocol_version == version
            &&& n.raw == capabilities
            &&& n.tools <==> present(capabilities, "tools"@)
            &&& n.resources <==> present(capabilities, "resources"@)
            &&& n.prompts <==> present(capabilities, "prompts"@)
            &&& n.completions <==> present(capabilities, "completions"@)
            &&& n.logging <==> present(capabilities, "logging"@)
            &&& n.tool_list_changed <==> changes("tools"@)
            &&& n.resource_list_changed <==> changes("resources"@)
            &&& n.prompt_list_changed <==> changes("prompts"@)
            &&& n.legacy_resource_subscribe <==> capabilities.at("resources"@).at(
                "subscribe"@,
            ).boolean() == Some(true)
            &&& n.subscriptions <==> n.tool_list_changed || n.resource_list_changed
                || n.prompt_list_changed || n.legacy_resource_subscribe
            &&& n.tasks <==> n.extensions.dom().contains("io.modelcontextprotocol/tasks"@)
        }),
{
}

/// A tool's answer holds every piece of its document, in order, each with the document that it was
/// read of; whether it is an error is what the document says.
pub proof fn law_answers_keep_every_piece(v: JsonView)
    ensures
        tool_result_read(v) is Ok <==> v.at("content"@).list() is Some,
        tool_result_read(v) matches Ok(answer) ==> {
            let blocks = v.at("content"@).list()->Some_0;
            &&& answer.content.len() == blocks.len()
            &&& forall|i: int|
                0 <= i < blocks.len() ==> #[trigger] answer.content[i] == content_read(blocks[i])
            &&& answer.is_error == v.at("isError"@).boolean()
            &&& answer.structured_content == v.get("structuredContent"@)
            &&& answer.meta == v.get("_meta"@)
        },
{
}

/// A piece of an answer is of the type that it names, and holds what its document says.
pub proof fn law_pieces_are_of_the_type_they_name(raw: JsonView)
    ensures
        ({
            let piece = content_read(raw);
            let kind = raw.at("type"@).text();
            &&& piece is Text <==> kind == Some("text"@)
            &&& piece is Image <==> kind == Some("image"@)
            &&& piece is Audio <==> kind == Some("audio"@)
            &&& piece is EmbeddedResource <==> kind == Some("resource"@)
            &&& piece is ResourceLink <==> kind == Some("resource_link"@) || kind == Some(
                "resourceLink"@,
            )
            &&& piece matches ContentView::Text { text, raw: of } ==> of == raw && (raw.at(
                "text"@,
            ).text() is Some ==> raw.at("text"@).text() == Some(text))
            &&& piece matches ContentView::Image { data, mime_type, raw: of } ==> of == raw && (
            raw.at("data"@).text() is Some ==> raw.at("data"@).text() == Some(data)) && (raw.at(
                "mimeType"@,
            ).text() is Some ==> raw.at("mimeType"@).text() == Some(mime_type))
            &&& piece matches ContentView::Audio { data, mime_type, raw: of } ==> of == raw && (
            raw.at("data"@).text() is Some ==> raw.at("data"@).text() == Some(data)) && (raw.at(
                "mimeType"@,
            ).text() is Some ==> raw.at("mimeType"@).text() == Some(mime_type))
            &&& piece matches ContentView::EmbeddedResource { resource, raw: of } ==> of == raw
                && resource == raw.at("resource"@)
            &&& piece matches ContentView::ResourceLink { uri, name, link_type, raw: of } ==> of
                == raw && link_type == raw.at("mimeType"@).text() && (raw.at("uri"@).text() is Some
                ==> raw.at("uri"@).text() == Some(uri)) && (raw.at("name"@).text() is Some
                ==> raw.at("name"@).text() == Some(name))
        }),
{
    reveal_strlit("text");
    reveal_strlit("image");
    reveal_strlit("audio");
    reveal_strlit("resource");
    reveal_strlit("resource_link");
    reveal_strlit("resourceLink");
    assert("image"@[0] == 'i' && "audio"@[0] == 'a');
    assert("text"@.len() == 4 && "image"@.len() == 5 && "audio"@.len() == 5 && "resource"@.len()
        == 8 && "resource_link"@.len() == 13 && "resourceLink"@.len() == 12);
}

/// A subscription ended as its last document says, and abruptly where there is none: a cancelled
/// one is no graceful one, and one that fell behind names its capacity.
pub proof fn law_subscriptions_end_as_they_say(value: Option<JsonView>)
    ensures
        ({
            let end = subscription_end_read(value);
            let reason = value->Some_0.at("reason"@).text();
            &&& (end matches Ok(SubscriptionEndView::Abrupt)) <==> value is None || reason == Some(
                "abrupt"@,
            )
            &&& (end matches Ok(SubscriptionEndView::Graceful)) <==> value is Some && reason
                == Some("graceful"@)
            &&& (end matches Ok(SubscriptionEndView::Cancelled)) <==> value is Some && reason
                == Some("cancelled"@)
            &&& end matches Ok(SubscriptionEndView::Lagged { capacity }) ==> value is Some && reason
                == Some("lagged"@) && value->Some_0.at("capacity"@).unsigned() == Some(capacity)
            &&& end matches Ok(SubscriptionEndView::Error { message }) ==> value is Some && reason
                == Some("error"@) && value->Some_0.at("message"@).text() == Some(message)
        }),
{
    reveal_strlit("graceful");
    reveal_strlit("abrupt");
    reveal_strlit("cancelled");
    reveal_strlit("lagged");
    reveal_strlit("error");
    assert("abrupt"@[0] == 'a' && "lagged"@[0] == 'l');
    assert("graceful"@.len() == 8 && "abrupt"@.len() == 6 && "cancelled"@.len() == 9
        && "lagged"@.len() == 6 && "error"@.len() == 5);
}

} // verus!
