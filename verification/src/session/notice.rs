//! What a session tells its host: event updates, and how native notices become them.

use crate::session::TurnOutcome;
use crate::text::{copy_option, option_view};
use vstd::prelude::*;

verus! {

/// A command that the session offers.
#[derive(Debug, PartialEq, Eq)]
pub struct RuntimeCommand {
    pub name: String,
    pub description: String,
}

/// A setting of the session and its value.
#[derive(Debug, PartialEq, Eq)]
pub struct RuntimeConfigOption {
    pub id: String,
    pub name: String,
    pub category: Option<String>,
    pub value: Option<String>,
}

/// A tool call, or what became of one.
#[derive(Debug, PartialEq, Eq)]
pub struct ToolEvent {
    pub id: String,
    pub title: String,
    pub kind: String,
    pub status: String,
    pub raw_input: Option<String>,
    pub raw_output: Option<String>,
}

/// What an event reports.
#[derive(Debug, PartialEq, Eq)]
pub enum EventUpdate {
    SessionStarted,
    UserText(String),
    AssistantText(String),
    ThoughtText(String),
    ToolStart(ToolEvent),
    ToolUpdate(ToolEvent),
    Plan { summary: String },
    AvailableCommands(Vec<RuntimeCommand>),
    ModeChanged(String),
    ConfigOptions(Vec<RuntimeConfigOption>),
    SessionInfo { title: Option<String> },
    Unknown { tag: String },
    TurnFinished(TurnOutcome),
    SessionClosed,
}

/// What a [`ToolEvent`] says.
pub struct ToolView {
    pub id: Seq<char>,
    pub title: Seq<char>,
    pub kind: Seq<char>,
    pub status: Seq<char>,
    pub raw_input: Option<Seq<char>>,
    pub raw_output: Option<Seq<char>>,
}

/// What a [`RuntimeConfigOption`] says.
pub struct OptionView {
    pub id: Seq<char>,
    pub name: Seq<char>,
    pub category: Option<Seq<char>>,
    pub value: Option<Seq<char>>,
}

/// What an [`EventUpdate`] says.
pub enum UpdateView {
    SessionStarted,
    UserText(Seq<char>),
    AssistantText(Seq<char>),
    ThoughtText(Seq<char>),
    ToolStart(ToolView),
    ToolUpdate(ToolView),
    Plan { summary: Seq<char> },
    AvailableCommands(Seq<(Seq<char>, Seq<char>)>),
    ModeChanged(Seq<char>),
    ConfigOptions(Seq<OptionView>),
    SessionInfo { title: Option<Seq<char>> },
    Unknown { tag: Seq<char> },
    TurnFinished(TurnOutcome),
    SessionClosed,
}

impl View for ToolEvent {
    type V = ToolView;

    open spec fn view(&self) -> ToolView {
        ToolView {
            id: self.id@,
            title: self.title@,
            kind: self.kind@,
            status: self.status@,
            raw_input: option_view(self.raw_input),
            raw_output: option_view(self.raw_output),
        }
    }
}

impl View for RuntimeConfigOption {
    type V = OptionView;

    open spec fn view(&self) -> OptionView {
        OptionView {
            id: self.id@,
            name: self.name@,
            category: option_view(self.category),
            value: option_view(self.value),
        }
    }
}

/// What each command says.
pub open spec fn command_views(commands: Seq<RuntimeCommand>) -> Seq<(Seq<char>, Seq<char>)> {
    Seq::new(commands.len(), |i: int| (commands[i].name@, commands[i].description@))
}

/// What each setting says.
pub open spec fn option_views(options: Seq<RuntimeConfigOption>) -> Seq<OptionView> {
    Seq::new(options.len(), |i: int| options[i]@)
}

impl View for EventUpdate {
    type V = UpdateView;

    open spec fn view(&self) -> UpdateView {
        match self {
            EventUpdate::SessionStarted => UpdateView::SessionStarted,
            EventUpdate::UserText(t) => UpdateView::UserText(t@),
            EventUpdate::AssistantText(t) => UpdateView::AssistantText(t@),
            EventUpdate::ThoughtText(t) => UpdateView::ThoughtText(t@),
            EventUpdate::ToolStart(t) => UpdateView::ToolStart(t@),
            EventUpdate::ToolUpdate(t) => UpdateView::ToolUpdate(t@),
            EventUpdate::Plan { summary } => UpdateView::Plan { summary: summary@ },
            EventUpdate::AvailableCommands(c) => UpdateView::AvailableCommands(command_views(c@)),
            EventUpdate::ModeChanged(m) => UpdateView::ModeChanged(m@),
            EventUpdate::ConfigOptions(c) => UpdateView::ConfigOptions(option_views(c@)),
            EventUpdate::SessionInfo { title } => UpdateView::SessionInfo {
                title: option_view(*title),
            },
            EventUpdate::Unknown { tag } => UpdateView::Unknown { tag: tag@ },
            EventUpdate::TurnFinished(o) => UpdateView::TurnFinished(*o),
            EventUpdate::SessionClosed => UpdateView::SessionClosed,
        }
    }
}

impl ToolEvent {
    /// A second copy of the tool event.
    pub fn duplicate(&self) -> (r: ToolEvent)
        ensures
            r@ == self@,
    {
        ToolEvent {
            id: self.id.clone(),
            title: self.title.clone(),
            kind: self.kind.clone(),
            status: self.status.clone(),
            raw_input: copy_option(&self.raw_input),
            raw_output: copy_option(&self.raw_output),
        }
    }
}

fn copy_commands(commands: &Vec<RuntimeCommand>) -> (r: Vec<RuntimeCommand>)
    ensures
        command_views(r@) == command_views(commands@),
{
    let mut out: Vec<RuntimeCommand> = Vec::new();
    let mut i: usize = 0;
    while i < commands.len()
        invariant
            i <= commands@.len(),
            out@.len() == i,
            forall|j: int|
                0 <= j < i ==> (#[trigger] out@[j]).name@ == commands@[j].name@
                    && out@[j].description@ == commands@[j].description@,
        decreases commands@.len() - i,
    {
        out.push(
            RuntimeCommand {
                name: commands[i].name.clone(),
                description: commands[i].description.clone(),
            },
        );
        i += 1;
    }
    proof {
        assert(command_views(out@) =~= command_views(commands@));
    }
    out
}

fn copy_options(options: &Vec<RuntimeConfigOption>) -> (r: Vec<RuntimeConfigOption>)
    ensures
        option_views(r@) == option_views(options@),
{
    let mut out: Vec<RuntimeConfigOption> = Vec::new();
    let mut i: usize = 0;
    while i < options.len()
        invariant
            i <= options@.len(),
            out@.len() == i,
            forall|j: int| 0 <= j < i ==> (#[trigger] out@[j])@ == options@[j]@,
        decreases options@.len() - i,
    {
        out.push(
            RuntimeConfigOption {
                id: options[i].id.clone(),
                name: options[i].name.clone(),
                category: copy_option(&options[i].category),
                value: copy_option(&options[i].value),
            },
        );
        i += 1;
    }
    proof {
        assert(option_views(out@) =~= option_views(options@));
    }
    out
}

impl EventUpdate {
    /// A second copy of the update.
    pub fn duplicate(&self) -> (r: EventUpdate)
        ensures
            r@ == self@,
    {
        match self {
            EventUpdate::SessionStarted => EventUpdate::SessionStarted,
            EventUpdate::UserText(t) => EventUpdate::UserText(t.clone()),
            EventUpdate::AssistantText(t) => EventUpdate::AssistantText(t.clone()),
            EventUpdate::ThoughtText(t) => EventUpdate::ThoughtText(t.clone()),
            EventUpdate::ToolStart(t) => EventUpdate::ToolStart(t.duplicate()),
            EventUpdate::ToolUpdate(t) => EventUpdate::ToolUpdate(t.duplicate()),
            EventUpdate::Plan { summary } => EventUpdate::Plan { summary: summary.clone() },
            EventUpdate::AvailableCommands(c) => EventUpdate::AvailableCommands(copy_commands(c)),
            EventUpdate::ModeChanged(m) => EventUpdate::ModeChanged(m.clone()),
            EventUpdate::ConfigOptions(c) => EventUpdate::ConfigOptions(copy_options(c)),
            EventUpdate::SessionInfo { title } => EventUpdate::SessionInfo {
                title: copy_option(title),
            },
            EventUpdate::Unknown { tag } => EventUpdate::Unknown { tag: tag.clone() },
            EventUpdate::TurnFinished(o) => EventUpdate::TurnFinished(*o),
            EventUpdate::SessionClosed => EventUpdate::SessionClosed,
        }
    }
}

/// A block of message content.
#[derive(Debug, PartialEq, Eq)]
pub enum MessageContent {
    Text(String),
    Other,
}

/// What changed in a tool call; what did not change is absent.
#[derive(Debug, PartialEq, Eq)]
pub struct ToolChange {
    pub id: String,
    pub title: Option<String>,
    pub kind: Option<String>,
    pub status: Option<String>,
    pub raw_input: Option<String>,
    pub raw_output: Option<String>,
}

/// One item of a plan.
#[derive(Debug, PartialEq, Eq)]
pub struct PlanItem {
    pub status: String,
    pub priority: String,
    pub content: String,
}

/// A notice of the native session.
#[derive(Debug, PartialEq, Eq)]
pub enum SessionNotice {
    UserMessage(MessageContent),
    AgentMessage(MessageContent),
    AgentThought(MessageContent),
    ToolCall(ToolEvent),
    ToolCallChange(ToolChange),
    Plan(Vec<PlanItem>),
    Commands(Vec<RuntimeCommand>),
    Mode(String),
    Config(Vec<RuntimeConfigOption>),
    Info { title: Option<String> },
    Other,
}

/// One line of a plan.
pub open spec fn plan_line(item: PlanItem) -> Seq<char> {
    "["@ + item.status@ + "/"@ + item.priority@ + "] "@ + item.content@
}

/// The lines of a plan, one below the other.
pub open spec fn plan_summary(items: Seq<PlanItem>) -> Seq<char>
    decreases items.len(),
{
    if items.len() == 0 {
        Seq::empty()
    } else if items.len() == 1 {
        plan_line(items[0])
    } else {
        plan_summary(items.drop_last()) + "\n"@ + plan_line(items.last())
    }
}

/// The text, or nothing.
pub open spec fn text_or_empty(text: Option<String>) -> Seq<char> {
    match text {
        Some(t) => t@,
        None => Seq::empty(),
    }
}

/// The update that a native notice becomes. A message that is no text is reported by a tag.
pub open spec fn notice_update(notice: SessionNotice) -> UpdateView {
    match notice {
        SessionNotice::UserMessage(MessageContent::Text(t)) => UpdateView::UserText(t@),
        SessionNotice::UserMessage(MessageContent::Other) => UpdateView::Unknown {
            tag: "user_message_non_text"@,
        },
        SessionNotice::AgentMessage(MessageContent::Text(t)) => UpdateView::AssistantText(t@),
        SessionNotice::AgentMessage(MessageContent::Other) => UpdateView::Unknown {
            tag: "agent_message_non_text"@,
        },
        SessionNotice::AgentThought(MessageContent::Text(t)) => UpdateView::ThoughtText(t@),
        SessionNotice::AgentThought(MessageContent::Other) => UpdateView::Unknown {
            tag: "agent_thought_non_text"@,
        },
        SessionNotice::ToolCall(call) => UpdateView::ToolStart(call@),
        SessionNotice::ToolCallChange(change) => UpdateView::ToolUpdate(
            ToolView {
                id: change.id@,
                title: text_or_empty(change.title),
                kind: text_or_empty(change.kind),
                status: text_or_empty(change.status),
                raw_input: option_view(change.raw_input),
                raw_output: option_view(change.raw_output),
            },
        ),
        SessionNotice::Plan(items) => UpdateView::Plan { summary: plan_summary(items@) },
        SessionNotice::Commands(commands) => UpdateView::AvailableCommands(
            command_views(commands@),
        ),
        SessionNotice::Mode(mode) => UpdateView::ModeChanged(mode@),
        SessionNotice::Config(options) => UpdateView::ConfigOptions(option_views(options@)),
        SessionNotice::Info { title } => UpdateView::SessionInfo { title: option_view(title) },
        SessionNotice::Other => UpdateView::Unknown { tag: "unrecognized"@ },
    }
}

fn unwrap_text(text: Option<String>) -> (r: String)
    ensures
        r@ == text_or_empty(text),
{
    match text {
        Some(t) => t,
        None => {
            let r = String::new();
            proof {
                assert(r@ =~= Seq::<char>::empty());
            }
            r
        },
    }
}

fn summarize(items: &Vec<PlanItem>) -> (r: String)
    ensures
        r@ == plan_summary(items@),
{
    let mut out = String::new();
    let mut i: usize = 0;
    proof {
        assert(items@.take(0) =~= Seq::empty());
        assert(out@ =~= Seq::<char>::empty());
    }
    while i < items.len()
        invariant
            i <= items@.len(),
            out@ == plan_summary(items@.take(i as int)),
        decreases items@.len() - i,
    {
        proof {
            assert(items@.take(i + 1).drop_last() =~= items@.take(i as int));
        }
        let ghost before = out@;
        if i > 0 {
            out.append("\n");
        }
        let ghost start = out@;
        out.append("[");
        out.append(items[i].status.as_str());
        out.append("/");
        out.append(items[i].priority.as_str());
        out.append("] ");
        out.append(items[i].content.as_str());
        proof {
            assert(out@ =~= start + plan_line(items@[i as int]));
            if i == 0 {
                assert(start =~= Seq::<char>::empty());
                assert(out@ =~= plan_line(items@[0]));
            }
        }
        i += 1;
    }
    proof {
        assert(items@.take(items@.len() as int) =~= items@);
    }
    out
}

/// Turns a native notice into the update that hosts see.
pub fn session_notification(notice: SessionNotice) -> (r: EventUpdate)
    ensures
        r@ == notice_update(notice),
{
    match notice {
        SessionNotice::UserMessage(content) => match content {
            MessageContent::Text(t) => EventUpdate::UserText(t),
            MessageContent::Other => EventUpdate::Unknown {
                tag: "user_message_non_text".to_owned(),
            },
        },
        SessionNotice::AgentMessage(content) => match content {
            MessageContent::Text(t) => EventUpdate::AssistantText(t),
            MessageContent::Other => EventUpdate::Unknown {
                tag: "agent_message_non_text".to_owned(),
            },
        },
        SessionNotice::AgentThought(content) => match content {
            MessageContent::Text(t) => EventUpdate::ThoughtText(t),
            MessageContent::Other => EventUpdate::Unknown {
                tag: "agent_thought_non_text".to_owned(),
            },
        },
        SessionNotice::ToolCall(call) => EventUpdate::ToolStart(call),
        SessionNotice::ToolCallChange(change) => EventUpdate::ToolUpdate(
            ToolEvent {
                id: change.id,
                title: unwrap_text(change.title),
                kind: unwrap_text(change.kind),
                status: unwrap_text(change.status),
                raw_input: change.raw_input,
                raw_output: change.raw_output,
            },
        ),
        SessionNotice::Plan(items) => EventUpdate::Plan { summary: summarize(&items) },
        SessionNotice::Commands(commands) => EventUpdate::AvailableCommands(commands),
        SessionNotice::Mode(mode) => EventUpdate::ModeChanged(mode),
        SessionNotice::Config(options) => EventUpdate::ConfigOptions(options),
        SessionNotice::Info { title } => EventUpdate::SessionInfo { title },
        SessionNotice::Other => EventUpdate::Unknown { tag: "unrecognized".to_owned() },
    }
}

proof fn lemma_plan_joined(items: Seq<PlanItem>, item: PlanItem)
    ensures
        items.len() > 0 ==> plan_summary(items.push(item)) == plan_summary(items) + "\n"@
            + plan_line(item),
        items.len() == 0 ==> plan_summary(items.push(item)) == plan_line(item),
{
    assert(items.push(item).drop_last() =~= items);
    assert(items.push(item).last() == item);
    if items.len() == 0 {
        assert(items.push(item)[0] == item);
    }
}

/// What a session says is passed on as what it is: a text under its speaker, a tool under its
/// identity, and a message that is no text as unknown. A plan has a line for every item, one below
/// the other, with its status, its priority and its content.
pub proof fn law_notices_are_passed_on(notice: SessionNotice, items: Seq<PlanItem>, item: PlanItem)
    ensures
        notice matches SessionNotice::UserMessage(MessageContent::Text(t)) ==> notice_update(notice)
            == UpdateView::UserText(t@),
        notice matches SessionNotice::AgentMessage(MessageContent::Text(t)) ==> notice_update(
            notice,
        ) == UpdateView::AssistantText(t@),
        notice matches SessionNotice::AgentThought(MessageContent::Text(t)) ==> notice_update(
            notice,
        ) == UpdateView::ThoughtText(t@),
        notice matches SessionNotice::ToolCall(call) ==> notice_update(notice)
            == UpdateView::ToolStart(call@),
        notice matches SessionNotice::ToolCallChange(change) ==> {
            let update = notice_update(notice);
            &&& update is ToolUpdate
            &&& update->ToolUpdate_0.id == change.id@
            &&& change.title matches Some(t) ==> update->ToolUpdate_0.title == t@
            &&& change.kind matches Some(t) ==> update->ToolUpdate_0.kind == t@
            &&& change.status matches Some(t) ==> update->ToolUpdate_0.status == t@
            &&& change.title is None ==> update->ToolUpdate_0.title.len() == 0
            &&& update->ToolUpdate_0.raw_input == option_view(change.raw_input)
            &&& update->ToolUpdate_0.raw_output == option_view(change.raw_output)
        },
        notice matches SessionNotice::Mode(mode) ==> notice_update(notice)
            == UpdateView::ModeChanged(mode@),
        notice_update(notice) is Unknown <==> notice is Other || (notice matches
            SessionNotice::UserMessage(MessageContent::Other)) || (notice matches
            SessionNotice::AgentMessage(MessageContent::Other)) || (notice matches
            SessionNotice::AgentThought(MessageContent::Other)),
        items.len() > 0 ==> plan_summary(items.push(item)) == plan_summary(items) + "\n"@ + "["@
            + item.status@ + "/"@ + item.priority@ + "] "@ + item.content@,
        plan_summary(seq![item]) == "["@ + item.status@ + "/"@ + item.priority@ + "] "@
            + item.content@,
{
    lemma_plan_joined(items, item);
    lemma_plan_joined(Seq::empty(), item);
    assert(Seq::<PlanItem>::empty().push(item) =~= seq![item]);
    if items.len() > 0 {
        assert(plan_summary(items) + "\n"@ + plan_line(item) =~= plan_summary(items) + "\n"@ + "["@
            + item.status@ + "/"@ + item.priority@ + "] "@ + item.content@);
    }
}

} // verus!
