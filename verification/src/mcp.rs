//! The protocol through which sessions reach tool servers.

pub mod outcome;
pub mod servers;

use crate::json::{JsonView, RawJson};
use crate::session::SessionId;
use crate::text::{any_control, blank, byte_len, has_control, is_blank, utf8_len};
use vstd::prelude::*;

verus! {

/// A tool server and how it is reached.
#[derive(Debug, PartialEq, Eq)]
pub enum McpServerConfig {
    Stdio { name: String, command: String, args: Vec<String>, env: Vec<(String, String)> },
    Http { name: String, url: String, headers: Vec<(String, String)> },
    Sse { name: String, url: String, headers: Vec<(String, String)> },
}

/// What a [`McpServerConfig`] says.
#[allow(inconsistent_fields)]
pub enum McpServerView {
    Stdio {
        name: Seq<char>,
        command: Seq<char>,
        args: Seq<Seq<char>>,
        env: Seq<(Seq<char>, Seq<char>)>,
    },
    Http { name: Seq<char>, url: Seq<char>, headers: Seq<(Seq<char>, Seq<char>)> },
    Sse { name: Seq<char>, url: Seq<char>, headers: Seq<(Seq<char>, Seq<char>)> },
}

/// What each pair says.
pub open spec fn pair_views(pairs: Seq<(String, String)>) -> Seq<(Seq<char>, Seq<char>)> {
    Seq::new(pairs.len(), |i: int| (pairs[i].0@, pairs[i].1@))
}

impl View for McpServerConfig {
    type V = McpServerView;

    open spec fn view(&self) -> McpServerView {
        match self {
            McpServerConfig::Stdio { name, command, args, env } => McpServerView::Stdio {
                name: name@,
                command: command@,
                args: crate::digest::text_views(args@),
                env: pair_views(env@),
            },
            McpServerConfig::Http { name, url, headers } => McpServerView::Http {
                name: name@,
                url: url@,
                headers: pair_views(headers@),
            },
            McpServerConfig::Sse { name, url, headers } => McpServerView::Sse {
                name: name@,
                url: url@,
                headers: pair_views(headers@),
            },
        }
    }
}

impl McpServerView {
    /// The name that the server is mounted under.
    pub open spec fn name(self) -> Seq<char> {
        match self {
            McpServerView::Stdio { name, .. } => name,
            McpServerView::Http { name, .. } => name,
            McpServerView::Sse { name, .. } => name,
        }
    }
}

fn copy_texts(texts: &Vec<String>) -> (r: Vec<String>)
    ensures
        crate::digest::text_views(r@) == crate::digest::text_views(texts@),
{
    let mut out: Vec<String> = Vec::new();
    let mut i: usize = 0;
    while i < texts.len()
        invariant
            i <= texts@.len(),
            out@.len() == i,
            forall|j: int| 0 <= j < i ==> (#[trigger] out@[j])@ == texts@[j]@,
        decreases texts@.len() - i,
    {
        out.push(texts[i].clone());
        i += 1;
    }
    proof {
        assert(crate::digest::text_views(out@) =~= crate::digest::text_views(texts@));
    }
    out
}

fn copy_pairs(pairs: &Vec<(String, String)>) -> (r: Vec<(String, String)>)
    ensures
        pair_views(r@) == pair_views(pairs@),
{
    let mut out: Vec<(String, String)> = Vec::new();
    let mut i: usize = 0;
    while i < pairs.len()
        invariant
            i <= pairs@.len(),
            out@.len() == i,
            forall|j: int|
                0 <= j < i ==> (#[trigger] out@[j]).0@ == pairs@[j].0@ && out@[j].1@
                    == pairs@[j].1@,
        decreases pairs@.len() - i,
    {
        out.push((pairs[i].0.clone(), pairs[i].1.clone()));
        i += 1;
    }
    proof {
        assert(pair_views(out@) =~= pair_views(pairs@));
    }
    out
}

impl McpServerConfig {
    /// The name that the server is mounted under.
    pub fn name(&self) -> (r: &str)
        ensures
            r@ == self@.name(),
    {
        match self {
            McpServerConfig::Stdio { name, .. } => name.as_str(),
            McpServerConfig::Http { name, .. } => name.as_str(),
            McpServerConfig::Sse { name, .. } => name.as_str(),
        }
    }

    /// A second copy of the configuration.
    pub fn duplicate(&self) -> (r: McpServerConfig)
        ensures
            r@ == self@,
    {
        match self {
            McpServerConfig::Stdio { name, command, args, env } => McpServerConfig::Stdio {
                name: name.clone(),
                command: command.clone(),
                args: copy_texts(args),
                env: copy_pairs(env),
            },
            McpServerConfig::Http { name, url, headers } => McpServerConfig::Http {
                name: name.clone(),
                url: url.clone(),
                headers: copy_pairs(headers),
            },
            McpServerConfig::Sse { name, url, headers } => McpServerConfig::Sse {
                name: name.clone(),
                url: url.clone(),
                headers: copy_pairs(headers),
            },
        }
    }
}

/// Whether a text is a bounded line: something stands in it, it keeps within its bound, and it
/// holds no control character.
pub open spec fn is_bounded_line(value: Seq<char>, maximum: usize) -> bool {
    !is_blank(value) && utf8_len(value) <= maximum && !has_control(value)
}

/// Whether a text is a bounded line.
pub fn valid_bounded_line(value: &str, maximum: usize) -> (r: bool)
    ensures
        r == is_bounded_line(value@, maximum),
{
    !blank(value) && byte_len(value) <= maximum && !any_control(value)
}

/// Who an in-process server speaks with: the runtime, the session and the registration.
#[derive(Debug, PartialEq, Eq)]
pub struct InProcessMcpContext {
    /// The number of the owning runtime within this process.
    pub runtime_instance_id: u64,
    pub session_id: SessionId,
    /// The number of this incarnation of the session within the runtime.
    pub session_instance_id: u64,
    pub server_name: String,
    /// The identifier that the server was registered under.
    pub registration_id: String,
}

/// A notification from a server to its client.
pub open spec fn notification(method: Seq<char>, params: JsonView) -> JsonView {
    JsonView::Object(
        seq![
            ("jsonrpc"@, JsonView::Text("2.0"@)),
            ("method"@, JsonView::Text(method)),
            ("params"@, params),
        ],
    )
}

/// Puts a notification together, when its method is named. Requests are never made this way.
pub fn notification_message(method: &str, params: RawJson) -> (r: Option<RawJson>)
    ensures
        match r {
            Some(message) => !is_blank(method@) && message@ == notification(method@, params@),
            None => is_blank(method@),
        },
{
    if !check_notification_method(method) {
        return None;
    }
    proof {
        reveal_strlit("jsonrpc");
        reveal_strlit("method");
        reveal_strlit("params");
        assert("jsonrpc"@[0] != "method"@[0]);
        assert("method"@[0] != "params"@[0]);
        assert("jsonrpc"@[0] != "params"@[0]);
    }
    Some(RawJson::tagged_twice("jsonrpc", "2.0", "method", method, "params", params))
}

/// Checks the method of a notification to a client.
pub fn check_notification_method(method: &str) -> (r: bool)
    ensures
        r == !is_blank(method@),
{
    !blank(method)
}

} // verus!
