//! Session-scoped capability layering.
//!
//! Capabilities come from two layers: the general one, which the application owns, and that of
//! one session. What a session contributes masks what the general layer contributes under the
//! same kind and name, for that session only; taking it away brings the general one back.

use crate::digest::text_views;
use crate::json::{
    fields_view, list_view, object_json, push_field, push_item, text_json, Json, JsonView,
};
use crate::mcp::{McpServerConfig, McpServerView};
use crate::program::{absolute, is_absolute};
use crate::session::Error;
use crate::text::{
    alphanumeric, blank, byte_len, chars_of, decimal, is_alphanumeric, is_blank,
    lemma_text_asymmetric, lemma_text_order, push_decimal, same_text, text_before, text_lt,
    utf8_len,
};
use crate::text_map::{sorted_keys, TextMap};
use vstd::prelude::*;
use vstd::seq_lib::group_to_multiset_ensures;

verus! {

/// Maximum entries that one layer may contribute for one kind.
pub const MAX_CAPABILITY_LAYER_ENTRIES: usize = 64;

/// Maximum length of one capability name, in bytes.
pub const MAX_CAPABILITY_NAME_BYTES: usize = 128;

/// The kinds of capability that a layer can contribute.
#[derive(Clone, Copy, Debug, PartialEq, Eq, PartialOrd, Ord, Hash, Structural)]
pub enum CapabilityKind {
    Skill,
    McpService,
    AgentService,
}

impl CapabilityKind {
    pub open spec fn name(self) -> Seq<char> {
        match self {
            CapabilityKind::Skill => "skill"@,
            CapabilityKind::McpService => "mcp service"@,
            CapabilityKind::AgentService => "agent service"@,
        }
    }

    /// The place of the kind in the order of kinds.
    pub open spec fn rank(self) -> int {
        match self {
            CapabilityKind::Skill => 0,
            CapabilityKind::McpService => 1,
            CapabilityKind::AgentService => 2,
        }
    }

    pub fn as_str(self) -> (r: &'static str)
        ensures
            r@ == self.name(),
    {
        match self {
            CapabilityKind::Skill => "skill",
            CapabilityKind::McpService => "mcp service",
            CapabilityKind::AgentService => "agent service",
        }
    }
}

/// Which layer supplied an effective capability.
#[derive(Clone, Copy, Debug, PartialEq, Eq, PartialOrd, Ord, Hash, Structural)]
pub enum CapabilityOrigin {
    /// The application.
    General,
    /// The session's own layer.
    Session,
}

/// Why a layer is refused.
#[non_exhaustive]
#[derive(Debug, PartialEq, Eq)]
pub enum CapabilityError {
    InvalidName(String),
    Duplicate { kind: CapabilityKind, name: String },
    TooManyEntries { kind: CapabilityKind, actual: usize, maximum: usize },
    RelativeSkillRoot { name: String },
    MissingModel { name: String },
    GeneralCollision(String),
    RestrictedProfile,
}

/// What a [`CapabilityError`] says.
pub enum CapabilityFault {
    InvalidName(Seq<char>),
    Duplicate { kind: CapabilityKind, name: Seq<char> },
    TooManyEntries { kind: CapabilityKind, actual: usize, maximum: usize },
    RelativeSkillRoot { name: Seq<char> },
    MissingModel { name: Seq<char> },
    GeneralCollision(Seq<char>),
    RestrictedProfile,
}

impl View for CapabilityError {
    type V = CapabilityFault;

    open spec fn view(&self) -> CapabilityFault {
        match self {
            CapabilityError::InvalidName(n) => CapabilityFault::InvalidName(n@),
            CapabilityError::Duplicate { kind, name } => CapabilityFault::Duplicate {
                kind: *kind,
                name: name@,
            },
            CapabilityError::TooManyEntries { kind, actual, maximum } => {
                CapabilityFault::TooManyEntries { kind: *kind, actual: *actual, maximum: *maximum }
            },
            CapabilityError::RelativeSkillRoot { name } => CapabilityFault::RelativeSkillRoot {
                name: name@,
            },
            CapabilityError::MissingModel { name } => CapabilityFault::MissingModel { name: name@ },
            CapabilityError::GeneralCollision(n) => CapabilityFault::GeneralCollision(n@),
            CapabilityError::RestrictedProfile => CapabilityFault::RestrictedProfile,
        }
    }
}

impl CapabilityFault {
    /// The fault in words.
    pub open spec fn words(self) -> Seq<char> {
        match self {
            CapabilityFault::InvalidName(n) => "capability name '"@ + n + "' must be 1..="@
                + decimal(MAX_CAPABILITY_NAME_BYTES as nat)
                + " bytes of ASCII letters, digits, '-', '_' or '.' and start with a letter or digit"@,
            CapabilityFault::Duplicate { kind, name } => "one layer contributes the "@
                + kind.name() + " '"@ + name + "' more than once"@,
            CapabilityFault::TooManyEntries { kind, actual, maximum } => "one layer contributes "@
                + decimal(actual as nat) + " "@ + kind.name() + " entries; the maximum is "@
                + decimal(maximum as nat),
            CapabilityFault::RelativeSkillRoot { name } => "skill '"@ + name
                + "' must declare an absolute root directory"@,
            CapabilityFault::MissingModel { name } => "agent service '"@ + name
                + "' must name a model"@,
            CapabilityFault::GeneralCollision(n) =>
            "the general layer and the runtime services both contribute the mcp service '"@ + n
                + "'"@,
            CapabilityFault::RestrictedProfile => "capability layers require the Desktop profile"@,
        }
    }
}

impl CapabilityError {
    /// The error in words.
    pub fn describe(&self) -> (r: String)
        ensures
            r@ == self@.words(),
    {
        match self {
            CapabilityError::InvalidName(n) => {
                let mut out = "capability name '".to_owned();
                out.append(n.as_str());
                out.append("' must be 1..=");
                push_decimal(&mut out, MAX_CAPABILITY_NAME_BYTES as u64);
                out.append(
                    " bytes of ASCII letters, digits, '-', '_' or '.' and start with a letter or digit",
                );
                out
            },
            CapabilityError::Duplicate { kind, name } => {
                let mut out = "one layer contributes the ".to_owned();
                out.append(kind.as_str());
                out.append(" '");
                out.append(name.as_str());
                out.append("' more than once");
                out
            },
            CapabilityError::TooManyEntries { kind, actual, maximum } => {
                let mut out = "one layer contributes ".to_owned();
                push_decimal(&mut out, *actual as u64);
                out.append(" ");
                out.append(kind.as_str());
                out.append(" entries; the maximum is ");
                push_decimal(&mut out, *maximum as u64);
                out
            },
            CapabilityError::RelativeSkillRoot { name } => {
                let mut out = "skill '".to_owned();
                out.append(name.as_str());
                out.append("' must declare an absolute root directory");
                out
            },
            CapabilityError::MissingModel { name } => {
                let mut out = "agent service '".to_owned();
                out.append(name.as_str());
                out.append("' must name a model");
                out
            },
            CapabilityError::GeneralCollision(n) => {
                let mut out =
                    "the general layer and the runtime services both contribute the mcp service '".to_owned();
                out.append(n.as_str());
                out.append("'");
                out
            },
            CapabilityError::RestrictedProfile => {
                "capability layers require the Desktop profile".to_owned()
            },
        }
    }

    /// The error as the runtime reports it.
    pub fn into_error(self) -> (r: Error)
        ensures
            r@ == crate::session::Fault::InvalidConfig(self@.words()),
    {
        Error::InvalidConfig(self.describe())
    }
}

/// The fault that a result carries.
pub open spec fn capability_fault<T>(r: Result<T, CapabilityError>) -> Option<CapabilityFault> {
    match r {
        Ok(_) => None,
        Err(e) => Some(e@),
    }
}

/// The first of two faults.
pub open spec fn first_of(a: Option<CapabilityFault>, b: Option<CapabilityFault>) -> Option<
    CapabilityFault,
> {
    match a {
        Some(_) => a,
        None => b,
    }
}

/// Whether a text is a capability name: ASCII letters, digits, `-`, `_` and `.`, with a letter or
/// digit in front.
pub open spec fn is_capability_name(value: Seq<char>) -> bool {
    &&& 0 < value.len()
    &&& utf8_len(value) <= MAX_CAPABILITY_NAME_BYTES
    &&& is_alphanumeric(value[0])
    &&& forall|i: int|
        0 <= i < value.len() ==> is_alphanumeric(#[trigger] value[i]) || value[i] == '-' || value[i]
            == '_' || value[i] == '.'
}

/// What is wrong with a capability name.
pub open spec fn name_fault(value: Seq<char>) -> Option<CapabilityFault> {
    if is_capability_name(value) {
        None
    } else {
        Some(CapabilityFault::InvalidName(value))
    }
}

/// Checks a capability name.
#[verifier::loop_isolation(false)]
pub fn validate_capability_name(value: &str) -> (r: Result<(), CapabilityError>)
    ensures
        capability_fault(r) == name_fault(value@),
{
    let chars = chars_of(value);
    if chars.len() == 0 || byte_len(value) > MAX_CAPABILITY_NAME_BYTES || !alphanumeric(chars[0]) {
        return Err(CapabilityError::InvalidName(value.to_owned()));
    }
    let mut i: usize = 0;
    while i < chars.len()
        invariant
            i <= chars@.len(),
            forall|j: int|
                0 <= j < i ==> is_alphanumeric(#[trigger] value@[j]) || value@[j] == '-'
                    || value@[j] == '_' || value@[j] == '.',
        decreases chars@.len() - i,
    {
        let c = chars[i];
        assert(value@[i as int] == c);
        if !(alphanumeric(c) || c == '-' || c == '_' || c == '.') {
            return Err(CapabilityError::InvalidName(value.to_owned()));
        }
        i += 1;
    }
    Ok(())
}

/// One named skill root. The name is what layers are told apart by.
#[derive(Debug, PartialEq, Eq)]
pub struct SkillContribution {
    name: String,
    root: String,
}

impl View for SkillContribution {
    /// The name and the root.
    type V = (Seq<char>, Seq<char>);

    closed spec fn view(&self) -> (Seq<char>, Seq<char>) {
        (self.name@, self.root@)
    }
}

/// What is wrong with a skill.
pub open spec fn skill_fault(skill: (Seq<char>, Seq<char>)) -> Option<CapabilityFault> {
    first_of(
        name_fault(skill.0),
        if is_absolute(skill.1) {
            None
        } else {
            Some(CapabilityFault::RelativeSkillRoot { name: skill.0 })
        },
    )
}

impl SkillContribution {
    pub fn new(name: &str, root: &str) -> (r: SkillContribution)
        ensures
            r@ == (name@, root@),
    {
        SkillContribution { name: name.to_owned(), root: root.to_owned() }
    }

    pub fn name(&self) -> (r: &str)
        ensures
            r@ == self@.0,
    {
        self.name.as_str()
    }

    pub fn root(&self) -> (r: &str)
        ensures
            r@ == self@.1,
    {
        self.root.as_str()
    }

    fn validate(&self) -> (r: Result<(), CapabilityError>)
        ensures
            capability_fault(r) == skill_fault(self@),
    {
        validate_capability_name(self.name.as_str())?;
        if !absolute(self.root.as_str()) {
            return Err(CapabilityError::RelativeSkillRoot { name: self.name.clone() });
        }
        Ok(())
    }
}

/// One named route of an agent service: the model that its calls are sampled from.
#[derive(Debug, PartialEq, Eq)]
pub struct AgentServiceContribution {
    name: String,
    model: String,
}

impl View for AgentServiceContribution {
    /// The name and the model.
    type V = (Seq<char>, Seq<char>);

    closed spec fn view(&self) -> (Seq<char>, Seq<char>) {
        (self.name@, self.model@)
    }
}

/// What is wrong with an agent service.
pub open spec fn agent_fault(service: (Seq<char>, Seq<char>)) -> Option<CapabilityFault> {
    first_of(
        name_fault(service.0),
        if is_blank(service.1) {
            Some(CapabilityFault::MissingModel { name: service.0 })
        } else {
            None
        },
    )
}

impl AgentServiceContribution {
    pub fn new(name: &str, model: &str) -> (r: AgentServiceContribution)
        ensures
            r@ == (name@, model@),
    {
        AgentServiceContribution { name: name.to_owned(), model: model.to_owned() }
    }

    pub fn name(&self) -> (r: &str)
        ensures
            r@ == self@.0,
    {
        self.name.as_str()
    }

    pub fn model(&self) -> (r: &str)
        ensures
            r@ == self@.1,
    {
        self.model.as_str()
    }

    fn validate(&self) -> (r: Result<(), CapabilityError>)
        ensures
            capability_fault(r) == agent_fault(self@),
    {
        validate_capability_name(self.name.as_str())?;
        if blank(self.model.as_str()) {
            return Err(CapabilityError::MissingModel { name: self.name.clone() });
        }
        Ok(())
    }
}

/// What one layer contributes. It is not shown: transports carry headers and values that must not
/// reach a log.
#[derive(PartialEq, Eq)]
pub struct CapabilityLayer {
    skills: Vec<SkillContribution>,
    mcp_services: Vec<McpServerConfig>,
    agent_services: Vec<AgentServiceContribution>,
}

/// What a [`CapabilityLayer`] says.
pub struct LayerView {
    pub skills: Seq<(Seq<char>, Seq<char>)>,
    pub mcp_services: Seq<McpServerView>,
    pub agent_services: Seq<(Seq<char>, Seq<char>)>,
}

/// What each skill says.
pub open spec fn skill_views(skills: Seq<SkillContribution>) -> Seq<(Seq<char>, Seq<char>)> {
    Seq::new(skills.len(), |i: int| skills[i]@)
}

/// What each mount says.
pub open spec fn mcp_views(services: Seq<McpServerConfig>) -> Seq<McpServerView> {
    Seq::new(services.len(), |i: int| services[i]@)
}

/// What each route says.
pub open spec fn agent_views(services: Seq<AgentServiceContribution>) -> Seq<
    (Seq<char>, Seq<char>),
> {
    Seq::new(services.len(), |i: int| services[i]@)
}

impl View for CapabilityLayer {
    type V = LayerView;

    closed spec fn view(&self) -> LayerView {
        LayerView {
            skills: skill_views(self.skills@),
            mcp_services: mcp_views(self.mcp_services@),
            agent_services: agent_views(self.agent_services@),
        }
    }
}

/// The names of skills or routes.
pub open spec fn pair_names(pairs: Seq<(Seq<char>, Seq<char>)>) -> Seq<Seq<char>> {
    Seq::new(pairs.len(), |i: int| pairs[i].0)
}

/// The names of mounts.
pub open spec fn mcp_names(services: Seq<McpServerView>) -> Seq<Seq<char>> {
    Seq::new(services.len(), |i: int| services[i].name())
}

/// What is wrong with the number of entries of a kind.
pub open spec fn bound_fault(kind: CapabilityKind, actual: nat) -> Option<CapabilityFault> {
    if actual > MAX_CAPABILITY_LAYER_ENTRIES {
        Some(
            CapabilityFault::TooManyEntries {
                kind,
                actual: actual as usize,
                maximum: MAX_CAPABILITY_LAYER_ENTRIES,
            },
        )
    } else {
        None
    }
}

/// What is wrong with the first skill that is wrong, from one on.
pub open spec fn skills_fault(skills: Seq<(Seq<char>, Seq<char>)>, from: int) -> Option<
    CapabilityFault,
>
    decreases skills.len() - from,
{
    if from < 0 || from >= skills.len() {
        None
    } else {
        first_of(skill_fault(skills[from]), skills_fault(skills, from + 1))
    }
}

/// What is wrong with the first name that is wrong, from one on.
pub open spec fn names_fault(names: Seq<Seq<char>>, from: int) -> Option<CapabilityFault>
    decreases names.len() - from,
{
    if from < 0 || from >= names.len() {
        None
    } else {
        first_of(name_fault(names[from]), names_fault(names, from + 1))
    }
}

/// What is wrong with the first route that is wrong, from one on.
pub open spec fn agents_fault(services: Seq<(Seq<char>, Seq<char>)>, from: int) -> Option<
    CapabilityFault,
>
    decreases services.len() - from,
{
    if from < 0 || from >= services.len() {
        None
    } else {
        first_of(agent_fault(services[from]), agents_fault(services, from + 1))
    }
}

/// The first name that stood before, from one on.
pub open spec fn repeated(kind: CapabilityKind, names: Seq<Seq<char>>, from: int) -> Option<
    CapabilityFault,
>
    decreases names.len() - from,
{
    if from < 0 || from >= names.len() {
        None
    } else if names.take(from).contains(names[from]) {
        Some(CapabilityFault::Duplicate { kind, name: names[from] })
    } else {
        repeated(kind, names, from + 1)
    }
}

/// What is wrong with a layer: a set that is too large, a name, root or model that is refused, or
/// a name that stands twice.
pub open spec fn layer_fault(layer: LayerView) -> Option<CapabilityFault> {
    first_of(
        bound_fault(CapabilityKind::Skill, layer.skills.len()),
        first_of(
            bound_fault(CapabilityKind::McpService, layer.mcp_services.len()),
            first_of(
                bound_fault(CapabilityKind::AgentService, layer.agent_services.len()),
                first_of(
                    skills_fault(layer.skills, 0),
                    first_of(
                        names_fault(mcp_names(layer.mcp_services), 0),
                        first_of(
                            agents_fault(layer.agent_services, 0),
                            first_of(
                                repeated(CapabilityKind::Skill, pair_names(layer.skills), 0),
                                first_of(
                                    repeated(
                                        CapabilityKind::McpService,
                                        mcp_names(layer.mcp_services),
                                        0,
                                    ),
                                    repeated(
                                        CapabilityKind::AgentService,
                                        pair_names(layer.agent_services),
                                        0,
                                    ),
                                ),
                            ),
                        ),
                    ),
                ),
            ),
        ),
    )
}

fn bound(kind: CapabilityKind, actual: usize) -> (r: Result<(), CapabilityError>)
    ensures
        capability_fault(r) == bound_fault(kind, actual as nat),
{
    if actual > MAX_CAPABILITY_LAYER_ENTRIES {
        return Err(
            CapabilityError::TooManyEntries { kind, actual, maximum: MAX_CAPABILITY_LAYER_ENTRIES },
        );
    }
    Ok(())
}

/// Whether a name stands among the first `n`.
fn stands_before(names: &Vec<String>, n: usize, name: &str) -> (r: bool)
    requires
        n <= names@.len(),
    ensures
        r == text_views(names@).take(n as int).contains(name@),
{
    let ghost before = text_views(names@).take(n as int);
    let mut i: usize = 0;
    while i < n
        invariant
            i <= n <= names@.len(),
            before == text_views(names@).take(n as int),
            forall|j: int| 0 <= j < i ==> before[j] != name@,
        decreases n - i,
    {
        if same_text(names[i].as_str(), name) {
            assert(before[i as int] == name@);
            return true;
        }
        i += 1;
    }
    false
}

fn reject_duplicates(kind: CapabilityKind, names: &Vec<String>) -> (r: Result<(), CapabilityError>)
    ensures
        capability_fault(r) == repeated(kind, text_views(names@), 0),
{
    let ghost all = text_views(names@);
    let mut i: usize = 0;
    while i < names.len()
        invariant
            i <= names@.len(),
            all == text_views(names@),
            repeated(kind, all, 0) == repeated(kind, all, i as int),
        decreases names@.len() - i,
    {
        if stands_before(names, i, names[i].as_str()) {
            return Err(CapabilityError::Duplicate { kind, name: names[i].clone() });
        }
        i += 1;
    }
    Ok(())
}

fn skill_name_list(skills: &Vec<SkillContribution>) -> (r: Vec<String>)
    ensures
        text_views(r@) == pair_names(skill_views(skills@)),
{
    let mut out: Vec<String> = Vec::new();
    let mut i: usize = 0;
    while i < skills.len()
        invariant
            i <= skills@.len(),
            out@.len() == i,
            forall|j: int| 0 <= j < i ==> (#[trigger] out@[j])@ == skills@[j]@.0,
        decreases skills@.len() - i,
    {
        out.push(skills[i].name().to_owned());
        i += 1;
    }
    proof {
        assert(text_views(out@) =~= pair_names(skill_views(skills@)));
    }
    out
}

fn mcp_name_list(services: &Vec<McpServerConfig>) -> (r: Vec<String>)
    ensures
        text_views(r@) == mcp_names(mcp_views(services@)),
{
    let mut out: Vec<String> = Vec::new();
    let mut i: usize = 0;
    while i < services.len()
        invariant
            i <= services@.len(),
            out@.len() == i,
            forall|j: int| 0 <= j < i ==> (#[trigger] out@[j])@ == services@[j]@.name(),
        decreases services@.len() - i,
    {
        out.push(services[i].name().to_owned());
        i += 1;
    }
    proof {
        assert(text_views(out@) =~= mcp_names(mcp_views(services@)));
    }
    out
}

fn agent_name_list(services: &Vec<AgentServiceContribution>) -> (r: Vec<String>)
    ensures
        text_views(r@) == pair_names(agent_views(services@)),
{
    let mut out: Vec<String> = Vec::new();
    let mut i: usize = 0;
    while i < services.len()
        invariant
            i <= services@.len(),
            out@.len() == i,
            forall|j: int| 0 <= j < i ==> (#[trigger] out@[j])@ == services@[j]@.0,
        decreases services@.len() - i,
    {
        out.push(services[i].name().to_owned());
        i += 1;
    }
    proof {
        assert(text_views(out@) =~= pair_names(agent_views(services@)));
    }
    out
}

impl CapabilityLayer {
    pub fn new() -> (r: CapabilityLayer)
        ensures
            r@ == (LayerView {
                skills: Seq::empty(),
                mcp_services: Seq::empty(),
                agent_services: Seq::empty(),
            }),
    {
        let r = CapabilityLayer {
            skills: Vec::new(),
            mcp_services: Vec::new(),
            agent_services: Vec::new(),
        };
        proof {
            assert(r@.skills =~= Seq::<(Seq<char>, Seq<char>)>::empty());
            assert(r@.mcp_services =~= Seq::<McpServerView>::empty());
            assert(r@.agent_services =~= Seq::<(Seq<char>, Seq<char>)>::empty());
        }
        r
    }

    pub fn skill(self, value: SkillContribution) -> (r: CapabilityLayer)
        ensures
            r@ == (LayerView { skills: self@.skills.push(value@), ..self@ }),
    {
        let ghost before = self@.skills;
        let mut skills = self.skills;
        skills.push(value);
        proof {
            assert(skill_views(skills@) =~= before.push(value@));
        }
        CapabilityLayer { skills, ..self }
    }

    pub fn skills(self, value: Vec<SkillContribution>) -> (r: CapabilityLayer)
        ensures
            r@ == (LayerView { skills: self@.skills + skill_views(value@), ..self@ }),
    {
        let ghost before = self@.skills;
        let mut skills = self.skills;
        let mut value = value;
        let ghost more = skill_views(value@);
        skills.append(&mut value);
        proof {
            assert(skill_views(skills@) =~= before + more);
        }
        CapabilityLayer { skills, ..self }
    }

    pub fn mcp_service(self, value: McpServerConfig) -> (r: CapabilityLayer)
        ensures
            r@ == (LayerView { mcp_services: self@.mcp_services.push(value@), ..self@ }),
    {
        let ghost before = self@.mcp_services;
        let mut mcp_services = self.mcp_services;
        mcp_services.push(value);
        proof {
            assert(mcp_views(mcp_services@) =~= before.push(value@));
        }
        CapabilityLayer { mcp_services, ..self }
    }

    pub fn mcp_services(self, value: Vec<McpServerConfig>) -> (r: CapabilityLayer)
        ensures
            r@ == (LayerView { mcp_services: self@.mcp_services + mcp_views(value@), ..self@ }),
    {
        let ghost before = self@.mcp_services;
        let mut mcp_services = self.mcp_services;
        let mut value = value;
        let ghost more = mcp_views(value@);
        mcp_services.append(&mut value);
        proof {
            assert(mcp_views(mcp_services@) =~= before + more);
        }
        CapabilityLayer { mcp_services, ..self }
    }

    pub fn agent_service(self, value: AgentServiceContribution) -> (r: CapabilityLayer)
        ensures
            r@ == (LayerView { agent_services: self@.agent_services.push(value@), ..self@ }),
    {
        let ghost before = self@.agent_services;
        let mut agent_services = self.agent_services;
        agent_services.push(value);
        proof {
            assert(agent_views(agent_services@) =~= before.push(value@));
        }
        CapabilityLayer { agent_services, ..self }
    }

    pub fn agent_services(self, value: Vec<AgentServiceContribution>) -> (r: CapabilityLayer)
        ensures
            r@ == (LayerView {
                agent_services: self@.agent_services + agent_views(value@),
                ..self@
            }),
    {
        let ghost before = self@.agent_services;
        let mut agent_services = self.agent_services;
        let mut value = value;
        let ghost more = agent_views(value@);
        agent_services.append(&mut value);
        proof {
            assert(agent_views(agent_services@) =~= before + more);
        }
        CapabilityLayer { agent_services, ..self }
    }

    pub fn is_empty(&self) -> (r: bool)
        ensures
            r == (self@.skills.len() == 0 && self@.mcp_services.len() == 0
                && self@.agent_services.len() == 0),
    {
        self.skills.len() == 0 && self.mcp_services.len() == 0 && self.agent_services.len() == 0
    }

    pub fn skill_contributions(&self) -> (r: &[SkillContribution])
        ensures
            skill_views(r@) == self@.skills,
    {
        self.skills.as_slice()
    }

    pub fn mcp_service_contributions(&self) -> (r: &[McpServerConfig])
        ensures
            mcp_views(r@) == self@.mcp_services,
    {
        self.mcp_services.as_slice()
    }

    pub fn agent_service_contributions(&self) -> (r: &[AgentServiceContribution])
        ensures
            agent_views(r@) == self@.agent_services,
    {
        self.agent_services.as_slice()
    }

    /// Refuses a layer with a wrong or repeated name, a relative root, a missing model, or too
    /// many entries.
    #[verifier::loop_isolation(false)]
    pub fn validate(&self) -> (r: Result<(), CapabilityError>)
        ensures
            capability_fault(r) == layer_fault(self@),
    {
        bound(CapabilityKind::Skill, self.skills.len())?;
        bound(CapabilityKind::McpService, self.mcp_services.len())?;
        bound(CapabilityKind::AgentService, self.agent_services.len())?;
        let mut i: usize = 0;
        while i < self.skills.len()
            invariant
                i <= self.skills@.len(),
                skills_fault(self@.skills, 0) == skills_fault(self@.skills, i as int),
            decreases self.skills@.len() - i,
        {
            assert(self@.skills[i as int] == self.skills@[i as int]@);
            self.skills[i].validate()?;
            i += 1;
        }
        let names = mcp_name_list(&self.mcp_services);
        let ghost mounted = mcp_names(self@.mcp_services);
        let mut i: usize = 0;
        while i < names.len()
            invariant
                i <= names@.len(),
                names_fault(mounted, 0) == names_fault(mounted, i as int),
            decreases names@.len() - i,
        {
            assert(mounted[i as int] == names@[i as int]@);
            validate_capability_name(names[i].as_str())?;
            i += 1;
        }
        let mut i: usize = 0;
        while i < self.agent_services.len()
            invariant
                i <= self.agent_services@.len(),
                agents_fault(self@.agent_services, 0) == agents_fault(
                    self@.agent_services,
                    i as int,
                ),
            decreases self.agent_services@.len() - i,
        {
            assert(self@.agent_services[i as int] == self.agent_services@[i as int]@);
            self.agent_services[i].validate()?;
            i += 1;
        }
        reject_duplicates(CapabilityKind::Skill, &skill_name_list(&self.skills))?;
        reject_duplicates(CapabilityKind::McpService, &names)?;
        reject_duplicates(CapabilityKind::AgentService, &agent_name_list(&self.agent_services))
    }
}

/// One effective capability, with the layer that supplied it.
#[derive(Debug, PartialEq, Eq, PartialOrd, Ord)]
pub struct CapabilityBinding {
    pub kind: CapabilityKind,
    pub name: String,
    pub origin: CapabilityOrigin,
}

/// One general capability that a session's capability of the same name hides.
#[derive(Debug, PartialEq, Eq, PartialOrd, Ord)]
pub struct MaskedCapability {
    pub kind: CapabilityKind,
    pub name: String,
}

/// What a [`CapabilityBinding`] says.
pub struct BindingView {
    pub kind: CapabilityKind,
    pub name: Seq<char>,
    pub origin: CapabilityOrigin,
}

impl View for CapabilityBinding {
    type V = BindingView;

    open spec fn view(&self) -> BindingView {
        BindingView { kind: self.kind, name: self.name@, origin: self.origin }
    }
}

impl View for MaskedCapability {
    type V = (CapabilityKind, Seq<char>);

    open spec fn view(&self) -> (CapabilityKind, Seq<char>) {
        (self.kind, self.name@)
    }
}

/// What one session sees, by name. It carries no credentials.
#[derive(Debug, PartialEq, Eq)]
pub struct CapabilityResolution {
    pub bindings: Vec<CapabilityBinding>,
    pub masked: Vec<MaskedCapability>,
}

/// What each binding says.
pub open spec fn binding_views(bindings: Seq<CapabilityBinding>) -> Seq<BindingView> {
    Seq::new(bindings.len(), |i: int| bindings[i]@)
}

/// What each masked capability says.
pub open spec fn masked_views(masked: Seq<MaskedCapability>) -> Seq<(CapabilityKind, Seq<char>)> {
    Seq::new(masked.len(), |i: int| masked[i]@)
}

/// What a [`CapabilityResolution`] says.
pub struct ResolutionView {
    pub bindings: Seq<BindingView>,
    pub masked: Seq<(CapabilityKind, Seq<char>)>,
}

impl View for CapabilityResolution {
    type V = ResolutionView;

    open spec fn view(&self) -> ResolutionView {
        ResolutionView {
            bindings: binding_views(self.bindings@),
            masked: masked_views(self.masked@),
        }
    }
}

/// The layer of the first binding of a kind and name, from one on.
pub open spec fn origin_from(
    bindings: Seq<BindingView>,
    kind: CapabilityKind,
    name: Seq<char>,
    from: int,
) -> Option<CapabilityOrigin>
    decreases bindings.len() - from,
{
    if from < 0 || from >= bindings.len() {
        None
    } else if bindings[from].kind == kind && bindings[from].name == name {
        Some(bindings[from].origin)
    } else {
        origin_from(bindings, kind, name, from + 1)
    }
}

/// The effective names of a kind, in order.
pub open spec fn names_of(bindings: Seq<BindingView>, kind: CapabilityKind) -> Seq<Seq<char>>
    decreases bindings.len(),
{
    if bindings.len() == 0 {
        Seq::empty()
    } else {
        let before = names_of(bindings.drop_last(), kind);
        if bindings.last().kind == kind {
            before.push(bindings.last().name)
        } else {
            before
        }
    }
}

impl CapabilityResolution {
    /// The effective names of one kind, in order.
    pub fn names(&self, kind: CapabilityKind) -> (r: Vec<String>)
        ensures
            text_views(r@) == names_of(self@.bindings, kind),
    {
        let ghost all = self@.bindings;
        let mut out: Vec<String> = Vec::new();
        let mut i: usize = 0;
        proof {
            assert(all.take(0) =~= Seq::empty());
            assert(text_views(out@) =~= Seq::empty());
        }
        while i < self.bindings.len()
            invariant
                i <= self.bindings@.len(),
                all == self@.bindings,
                text_views(out@) == names_of(all.take(i as int), kind),
            decreases self.bindings@.len() - i,
        {
            let ghost before = text_views(out@);
            proof {
                assert(all.take(i + 1).drop_last() =~= all.take(i as int));
                assert(all.take(i + 1).last() == self.bindings@[i as int]@);
            }
            if self.bindings[i].kind == kind {
                out.push(self.bindings[i].name.clone());
                proof {
                    assert(text_views(out@) =~= before.push(self.bindings@[i as int].name@));
                }
            }
            i += 1;
        }
        proof {
            assert(all.take(all.len() as int) =~= all);
        }
        out
    }

    /// Which layer supplies a capability.
    pub fn origin(&self, kind: CapabilityKind, name: &str) -> (r: Option<CapabilityOrigin>)
        ensures
            r == origin_from(self@.bindings, kind, name@, 0),
    {
        let mut i: usize = 0;
        while i < self.bindings.len()
            invariant
                i <= self.bindings@.len(),
                origin_from(self@.bindings, kind, name@, 0) == origin_from(
                    self@.bindings,
                    kind,
                    name@,
                    i as int,
                ),
            decreases self.bindings@.len() - i,
        {
            assert(self@.bindings[i as int] == self.bindings@[i as int]@);
            if self.bindings[i].kind == kind && same_text(self.bindings[i].name.as_str(), name) {
                return Some(self.bindings[i].origin);
            }
            i += 1;
        }
        None
    }

    /// Whether a general capability is hidden.
    pub fn is_masked(&self, kind: CapabilityKind, name: &str) -> (r: bool)
        ensures
            r == self@.masked.contains((kind, name@)),
    {
        let mut i: usize = 0;
        while i < self.masked.len()
            invariant
                i <= self.masked@.len(),
                forall|j: int| 0 <= j < i ==> #[trigger] self@.masked[j] != (kind, name@),
            decreases self.masked@.len() - i,
        {
            assert(self@.masked[i as int] == self.masked@[i as int]@);
            if self.masked[i].kind == kind && same_text(self.masked[i].name.as_str(), name) {
                return true;
            }
            i += 1;
        }
        false
    }
}

/// The bindings of a kind: the general names that the session leaves alone, in their order, then
/// the session's own.
pub open spec fn kind_bindings(
    kind: CapabilityKind,
    general: Seq<Seq<char>>,
    session: Seq<Seq<char>>,
) -> Seq<BindingView> {
    general_bindings(kind, general, session) + Seq::new(
        session.len(),
        |i: int|
            BindingView { kind, name: session[i], origin: CapabilityOrigin::Session },
    )
}

/// The general bindings that the session leaves alone.
pub open spec fn general_bindings(
    kind: CapabilityKind,
    general: Seq<Seq<char>>,
    session: Seq<Seq<char>>,
) -> Seq<BindingView>
    decreases general.len(),
{
    if general.len() == 0 {
        Seq::empty()
    } else {
        let before = general_bindings(kind, general.drop_last(), session);
        if session.contains(general.last()) {
            before
        } else {
            before.push(
                BindingView { kind, name: general.last(), origin: CapabilityOrigin::General },
            )
        }
    }
}

/// The general names that the session hides.
pub open spec fn kind_masked(
    kind: CapabilityKind,
    general: Seq<Seq<char>>,
    session: Seq<Seq<char>>,
) -> Seq<(CapabilityKind, Seq<char>)>
    decreases general.len(),
{
    if general.len() == 0 {
        Seq::empty()
    } else {
        let before = kind_masked(kind, general.drop_last(), session);
        if session.contains(general.last()) {
            before.push((kind, general.last()))
        } else {
            before
        }
    }
}

/// The values of a kind that are left: those of the general names that the session leaves alone.
pub open spec fn unmasked<T>(general: Seq<T>, names: Seq<Seq<char>>, session: Seq<Seq<char>>) -> Seq<
    T,
>
    decreases general.len(),
{
    if general.len() == 0 || names.len() != general.len() {
        Seq::empty()
    } else {
        let before = unmasked(general.drop_last(), names.drop_last(), session);
        if session.contains(names.last()) {
            before
        } else {
            before.push(general.last())
        }
    }
}

/// Whether one masked capability stands before another, or is the same.
pub open spec fn masked_le(a: (CapabilityKind, Seq<char>), b: (CapabilityKind, Seq<char>)) -> bool {
    a.0.rank() < b.0.rank() || (a.0 == b.0 && (a.1 == b.1 || text_lt(a.1, b.1)))
}

/// Whether masked capabilities stand in order, by kind and then by name.
pub open spec fn masked_sorted(masked: Seq<(CapabilityKind, Seq<char>)>) -> bool {
    forall|i: int, j: int|
        0 <= i < j < masked.len() ==> masked_le(#[trigger] masked[i], #[trigger] masked[j])
}

/// The routes that services leave: of two with one name the later counts.
pub open spec fn routes(services: Seq<(Seq<char>, Seq<char>)>) -> Map<Seq<char>, Seq<char>>
    decreases services.len(),
{
    if services.len() == 0 {
        Map::empty()
    } else {
        routes(services.drop_last()).insert(services.last().0, services.last().1)
    }
}

/// What one session sees, by name and by value. It is not shown either.
#[derive(PartialEq, Eq)]
pub struct ResolvedCapabilities {
    pub resolution: CapabilityResolution,
    pub skill_roots: Vec<String>,
    pub mcp_services: Vec<McpServerConfig>,
    pub agent_services: TextMap<String>,
}

/// The roots of skills.
pub open spec fn pair_values(pairs: Seq<(Seq<char>, Seq<char>)>) -> Seq<Seq<char>> {
    Seq::new(pairs.len(), |i: int| pairs[i].1)
}

/// The bindings of a session.
pub open spec fn resolved_bindings(general: LayerView, session: LayerView) -> Seq<BindingView> {
    kind_bindings(CapabilityKind::Skill, pair_names(general.skills), pair_names(session.skills))
        + kind_bindings(
        CapabilityKind::McpService,
        mcp_names(general.mcp_services),
        mcp_names(session.mcp_services),
    ) + kind_bindings(
        CapabilityKind::AgentService,
        pair_names(general.agent_services),
        pair_names(session.agent_services),
    )
}

/// What a session hides, kind by kind, in the order of the general layer.
pub open spec fn resolved_masked(general: LayerView, session: LayerView) -> Seq<
    (CapabilityKind, Seq<char>),
> {
    kind_masked(CapabilityKind::Skill, pair_names(general.skills), pair_names(session.skills))
        + kind_masked(
        CapabilityKind::McpService,
        mcp_names(general.mcp_services),
        mcp_names(session.mcp_services),
    ) + kind_masked(
        CapabilityKind::AgentService,
        pair_names(general.agent_services),
        pair_names(session.agent_services),
    )
}

fn holds_name(names: &Vec<String>, name: &str) -> (r: bool)
    ensures
        r == text_views(names@).contains(name@),
{
    let n: usize = names.len();
    proof {
        assert(text_views(names@).take(n as int) =~= text_views(names@));
    }
    stands_before(names, n, name)
}

/// Adds the bindings of a kind and what is hidden of it.
#[verifier::loop_isolation(false)]
fn resolve_kind(
    kind: CapabilityKind,
    general: &Vec<String>,
    session: &Vec<String>,
    bindings: &mut Vec<CapabilityBinding>,
    masked: &mut Vec<MaskedCapability>,
)
    ensures
        binding_views(final(bindings)@) == binding_views(old(bindings)@) + kind_bindings(
            kind,
            text_views(general@),
            text_views(session@),
        ),
        masked_views(final(masked)@) == masked_views(old(masked)@) + kind_masked(
            kind,
            text_views(general@),
            text_views(session@),
        ),
{
    let ghost all = text_views(general@);
    let ghost own = text_views(session@);
    let ghost bound0 = binding_views(bindings@);
    let ghost masked0 = masked_views(masked@);
    let mut i: usize = 0;
    proof {
        assert(all.take(0) =~= Seq::empty());
        assert(bound0 + general_bindings(kind, all.take(0), own) =~= bound0);
        assert(masked0 + kind_masked(kind, all.take(0), own) =~= masked0);
    }
    while i < general.len()
        invariant
            i <= general@.len(),
            binding_views(bindings@) == bound0 + general_bindings(kind, all.take(i as int), own),
            masked_views(masked@) == masked0 + kind_masked(kind, all.take(i as int), own),
        decreases general@.len() - i,
    {
        let ghost bound1 = binding_views(bindings@);
        let ghost masked1 = masked_views(masked@);
        proof {
            assert(all.take(i + 1).drop_last() =~= all.take(i as int));
            assert(all.take(i + 1).last() == all[i as int]);
        }
        if holds_name(session, general[i].as_str()) {
            masked.push(MaskedCapability { kind, name: general[i].clone() });
            proof {
                assert(masked_views(masked@) =~= masked1.push((kind, all[i as int])));
                assert(masked_views(masked@) =~= masked0 + kind_masked(kind, all.take(i + 1), own));
            }
        } else {
            bindings.push(
                CapabilityBinding {
                    kind,
                    name: general[i].clone(),
                    origin: CapabilityOrigin::General,
                },
            );
            proof {
                let added = BindingView {
                    kind,
                    name: all[i as int],
                    origin: CapabilityOrigin::General,
                };
                assert(binding_views(bindings@) =~= bound1.push(added));
                assert(binding_views(bindings@) =~= bound0 + general_bindings(
                    kind,
                    all.take(i + 1),
                    own,
                ));
            }
        }
        i += 1;
    }
    let ghost bound2 = binding_views(bindings@);
    let ghost wanted = Seq::new(
        own.len(),
        |i: int| BindingView { kind, name: own[i], origin: CapabilityOrigin::Session },
    );
    let mut k: usize = 0;
    proof {
        assert(all.take(all.len() as int) =~= all);
        assert(bound2 + wanted.take(0) =~= bound2);
    }
    while k < session.len()
        invariant
            k <= session@.len(),
            binding_views(bindings@) == bound2 + wanted.take(k as int),
        decreases session@.len() - k,
    {
        let ghost bound3 = binding_views(bindings@);
        bindings.push(
            CapabilityBinding {
                kind,
                name: session[k].clone(),
                origin: CapabilityOrigin::Session,
            },
        );
        proof {
            assert(binding_views(bindings@) =~= bound3.push(wanted[k as int]));
            assert(bound2 + wanted.take(k + 1) =~= (bound2 + wanted.take(k as int)).push(
                wanted[k as int],
            ));
        }
        k += 1;
    }
    proof {
        assert(wanted.take(wanted.len() as int) =~= wanted);
        assert(bound2 + wanted =~= bound0 + kind_bindings(kind, all, own));
    }
}

/// Whether a masked capability stands strictly before another.
fn masked_before(a: &MaskedCapability, b: &MaskedCapability) -> (r: bool)
    ensures
        r == (masked_le(a@, b@) && a@ != b@),
{
    proof {
        if text_lt(a@.1, b@.1) {
            lemma_text_asymmetric(a@.1, b@.1);
        }
    }
    if a.kind == b.kind {
        text_before(a.name.as_str(), b.name.as_str())
    } else {
        match (a.kind, b.kind) {
            (CapabilityKind::Skill, _) => true,
            (CapabilityKind::McpService, CapabilityKind::AgentService) => true,
            _ => false,
        }
    }
}

proof fn lemma_masked_le(
    a: (CapabilityKind, Seq<char>),
    b: (CapabilityKind, Seq<char>),
    c: (CapabilityKind, Seq<char>),
)
    ensures
        masked_le(a, b) || masked_le(b, a),
        masked_le(a, b) && masked_le(b, c) ==> masked_le(a, c),
{
    lemma_text_order(a.1, b.1, c.1);
    lemma_text_order(b.1, a.1, c.1);
}

/// Puts masked capabilities in order.
#[verifier::loop_isolation(false)]
fn sort_masked(masked: Vec<MaskedCapability>) -> (r: Vec<MaskedCapability>)
    ensures
        masked_sorted(masked_views(r@)),
        masked_views(r@).to_multiset() == masked_views(masked@).to_multiset(),
{
    broadcast use group_to_multiset_ensures;

    let ghost all = masked_views(masked@);
    let mut out: Vec<MaskedCapability> = Vec::new();
    let mut rest = masked;
    proof {
        assert(masked_views(out@) =~= Seq::empty());
        assert(all.to_multiset() =~= masked_views(out@).to_multiset().add(
            masked_views(rest@).to_multiset(),
        ));
    }
    while rest.len() > 0
        invariant
            masked_sorted(masked_views(out@)),
            all.to_multiset() == masked_views(out@).to_multiset().add(
                masked_views(rest@).to_multiset(),
            ),
        decreases rest@.len(),
    {
        let ghost before_rest = masked_views(rest@);
        let item = rest.pop().unwrap();
        let ghost said = item@;
        let ghost sorted = masked_views(out@);
        let mut at: usize = 0;
        while at < out.len() && !masked_before(&item, &out[at])
            invariant
                at <= out@.len(),
                forall|j: int| 0 <= j < at ==> masked_le(#[trigger] sorted[j], said),
            decreases out@.len() - at,
        {
            proof {
                assert(sorted[at as int] == out@[at as int]@);
                lemma_masked_le(sorted[at as int], said, said);
            }
            at += 1;
        }
        out.insert(at, item);
        proof {
            let now = masked_views(out@);
            assert(now =~= sorted.insert(at as int, said));
            assert(masked_views(rest@) =~= before_rest.drop_last());
            assert(before_rest =~= masked_views(rest@).push(said));
            if at < sorted.len() {
                assert(masked_le(said, sorted[at as int]));
            }
            assert forall|i: int, j: int| 0 <= i < j < now.len() implies masked_le(
                #[trigger] now[i],
                #[trigger] now[j],
            ) by {
                if i < at && j == at {
                    assert(now[i] == sorted[i]);
                } else if i == at {
                    assert(now[j] == sorted[j - 1]);
                    if j - 1 > at {
                        assert(masked_le(sorted[at as int], sorted[j - 1]));
                        lemma_masked_le(said, sorted[at as int], sorted[j - 1]);
                    }
                } else {
                    let a = if i < at {
                        i
                    } else {
                        i - 1
                    };
                    let b = if j < at {
                        j
                    } else {
                        j - 1
                    };
                    assert(now[i] == sorted[a] && now[j] == sorted[b]);
                }
            }
            assert(now.to_multiset() =~= sorted.to_multiset().insert(said)) by {
                vstd::seq_lib::to_multiset_insert(sorted, at as int, said);
            }
            assert(before_rest.to_multiset() =~= masked_views(rest@).to_multiset().insert(said));
            assert(all.to_multiset() =~= now.to_multiset().add(masked_views(rest@).to_multiset()));
        }
    }
    proof {
        assert(masked_views(rest@) =~= Seq::empty());
        assert(all.to_multiset() =~= masked_views(out@).to_multiset());
    }
    out
}

/// The values of the general layer that are left.
fn left_roots(skills: &Vec<SkillContribution>, session: &Vec<String>) -> (r: Vec<String>)
    ensures
        text_views(r@) == unmasked(
            pair_values(skill_views(skills@)),
            pair_names(skill_views(skills@)),
            text_views(session@),
        ),
{
    let ghost values = pair_values(skill_views(skills@));
    let ghost names = pair_names(skill_views(skills@));
    let ghost own = text_views(session@);
    let mut out: Vec<String> = Vec::new();
    let mut i: usize = 0;
    proof {
        assert(values.take(0) =~= Seq::empty());
        assert(text_views(out@) =~= Seq::empty());
    }
    while i < skills.len()
        invariant
            i <= skills@.len(),
            values == pair_values(skill_views(skills@)),
            names == pair_names(skill_views(skills@)),
            own == text_views(session@),
            text_views(out@) == unmasked(values.take(i as int), names.take(i as int), own),
        decreases skills@.len() - i,
    {
        let ghost before = text_views(out@);
        proof {
            assert(values.take(i + 1).drop_last() =~= values.take(i as int));
            assert(names.take(i + 1).drop_last() =~= names.take(i as int));
            assert(values.take(i + 1).last() == skills@[i as int]@.1);
            assert(names.take(i + 1).last() == skills@[i as int]@.0);
        }
        if !holds_name(session, skills[i].name()) {
            out.push(skills[i].root().to_owned());
            proof {
                assert(text_views(out@) =~= before.push(skills@[i as int]@.1));
            }
        }
        i += 1;
    }
    proof {
        assert(values.take(values.len() as int) =~= values);
        assert(names.take(names.len() as int) =~= names);
    }
    out
}

fn left_mounts(services: &Vec<McpServerConfig>, session: &Vec<String>) -> (r: Vec<McpServerConfig>)
    ensures
        mcp_views(r@) == unmasked(
            mcp_views(services@),
            mcp_names(mcp_views(services@)),
            text_views(session@),
        ),
{
    let ghost values = mcp_views(services@);
    let ghost names = mcp_names(values);
    let ghost own = text_views(session@);
    let mut out: Vec<McpServerConfig> = Vec::new();
    let mut i: usize = 0;
    proof {
        assert(values.take(0) =~= Seq::empty());
        assert(mcp_views(out@) =~= Seq::empty());
    }
    while i < services.len()
        invariant
            i <= services@.len(),
            values == mcp_views(services@),
            names == mcp_names(values),
            own == text_views(session@),
            mcp_views(out@) == unmasked(values.take(i as int), names.take(i as int), own),
        decreases services@.len() - i,
    {
        let ghost before = mcp_views(out@);
        proof {
            assert(values.take(i + 1).drop_last() =~= values.take(i as int));
            assert(names.take(i + 1).drop_last() =~= names.take(i as int));
            assert(values.take(i + 1).last() == services@[i as int]@);
            assert(names.take(i + 1).last() == services@[i as int]@.name());
        }
        if !holds_name(session, services[i].name()) {
            out.push(services[i].duplicate());
            proof {
                assert(mcp_views(out@) =~= before.push(services@[i as int]@));
            }
        }
        i += 1;
    }
    proof {
        assert(values.take(values.len() as int) =~= values);
        assert(names.take(names.len() as int) =~= names);
    }
    out
}

/// What each value says.
pub open spec fn route_views(services: Map<Seq<char>, String>) -> Map<Seq<char>, Seq<char>> {
    services.map_values(|v: String| v@)
}

/// The routes of a session: the general ones that it leaves alone, and its own.
pub open spec fn resolved_routes(general: LayerView, session: LayerView) -> Map<
    Seq<char>,
    Seq<char>,
> {
    routes(
        unmasked(
            general.agent_services,
            pair_names(general.agent_services),
            pair_names(session.agent_services),
        ) + session.agent_services,
    )
}

/// Masks the general layer with the session's. Order is kept: general entries first, then the
/// session's.
#[verifier::loop_isolation(false)]
pub fn resolve_capabilities(general: &CapabilityLayer, session: &CapabilityLayer) -> (r:
    ResolvedCapabilities)
    ensures
        r.resolution@.bindings == resolved_bindings(general@, session@),
        masked_sorted(r.resolution@.masked),
        r.resolution@.masked.to_multiset() == resolved_masked(general@, session@).to_multiset(),
        text_views(r.skill_roots@) == unmasked(
            pair_values(general@.skills),
            pair_names(general@.skills),
            pair_names(session@.skills),
        ) + pair_values(session@.skills),
        mcp_views(r.mcp_services@) == unmasked(
            general@.mcp_services,
            mcp_names(general@.mcp_services),
            mcp_names(session@.mcp_services),
        ) + session@.mcp_services,
        route_views(r.agent_services@) == resolved_routes(general@, session@),
{
    let own_skills = skill_name_list(&session.skills);
    let own_mounts = mcp_name_list(&session.mcp_services);
    let own_agents = agent_name_list(&session.agent_services);
    let mut bindings: Vec<CapabilityBinding> = Vec::new();
    let mut masked: Vec<MaskedCapability> = Vec::new();
    proof {
        assert(binding_views(bindings@) =~= Seq::empty());
        assert(masked_views(masked@) =~= Seq::empty());
    }
    resolve_kind(
        CapabilityKind::Skill,
        &skill_name_list(&general.skills),
        &own_skills,
        &mut bindings,
        &mut masked,
    );
    resolve_kind(
        CapabilityKind::McpService,
        &mcp_name_list(&general.mcp_services),
        &own_mounts,
        &mut bindings,
        &mut masked,
    );
    resolve_kind(
        CapabilityKind::AgentService,
        &agent_name_list(&general.agent_services),
        &own_agents,
        &mut bindings,
        &mut masked,
    );
    proof {
        assert(binding_views(bindings@) =~= resolved_bindings(general@, session@));
        assert(masked_views(masked@) =~= resolved_masked(general@, session@));
    }
    let masked = sort_masked(masked);

    let mut skill_roots = left_roots(&general.skills, &own_skills);
    let ghost left = text_views(skill_roots@);
    let ghost more = pair_values(session@.skills);
    let mut i: usize = 0;
    proof {
        assert(left + more.take(0) =~= left);
    }
    while i < session.skills.len()
        invariant
            i <= session.skills@.len(),
            text_views(skill_roots@) == left + more.take(i as int),
        decreases session.skills@.len() - i,
    {
        let ghost before = text_views(skill_roots@);
        skill_roots.push(session.skills[i].root().to_owned());
        proof {
            assert(more[i as int] == session.skills@[i as int]@.1);
            assert(text_views(skill_roots@) =~= before.push(more[i as int]));
            assert(left + more.take(i + 1) =~= (left + more.take(i as int)).push(more[i as int]));
        }
        i += 1;
    }
    proof {
        assert(more.take(more.len() as int) =~= more);
    }

    let mut mcp_services = left_mounts(&general.mcp_services, &own_mounts);
    let ghost left = mcp_views(mcp_services@);
    let ghost more = session@.mcp_services;
    let mut i: usize = 0;
    proof {
        assert(left + more.take(0) =~= left);
    }
    while i < session.mcp_services.len()
        invariant
            i <= session.mcp_services@.len(),
            mcp_views(mcp_services@) == left + more.take(i as int),
        decreases session.mcp_services@.len() - i,
    {
        let ghost before = mcp_views(mcp_services@);
        mcp_services.push(session.mcp_services[i].duplicate());
        proof {
            assert(more[i as int] == session.mcp_services@[i as int]@);
            assert(mcp_views(mcp_services@) =~= before.push(more[i as int]));
            assert(left + more.take(i + 1) =~= (left + more.take(i as int)).push(more[i as int]));
        }
        i += 1;
    }
    proof {
        assert(more.take(more.len() as int) =~= more);
    }

    let agent_services = resolve_routes(
        &general.agent_services,
        &session.agent_services,
        &own_agents,
    );
    ResolvedCapabilities {
        resolution: CapabilityResolution { bindings, masked },
        skill_roots,
        mcp_services,
        agent_services,
    }
}

#[verifier::loop_isolation(false)]
fn resolve_routes(
    general: &Vec<AgentServiceContribution>,
    session: &Vec<AgentServiceContribution>,
    own: &Vec<String>,
) -> (r: TextMap<String>)
    requires
        text_views(own@) == pair_names(agent_views(session@)),
    ensures
        route_views(r@) == routes(
            unmasked(
                agent_views(general@),
                pair_names(agent_views(general@)),
                pair_names(agent_views(session@)),
            ) + agent_views(session@),
        ),
{
    let ghost values = agent_views(general@);
    let ghost names = pair_names(values);
    let ghost mine = text_views(own@);
    let mut out: TextMap<String> = TextMap::new();
    let mut i: usize = 0;
    proof {
        assert(values.take(0) =~= Seq::empty());
        assert(route_views(out@) =~= Map::empty());
        assert(unmasked(values.take(0), names.take(0), mine) =~= Seq::empty());
    }
    while i < general.len()
        invariant
            i <= general@.len(),
            route_views(out@) == routes(unmasked(values.take(i as int), names.take(i as int), mine)),
        decreases general@.len() - i,
    {
        let ghost before = route_views(out@);
        let ghost kept = unmasked(values.take(i as int), names.take(i as int), mine);
        proof {
            assert(values.take(i + 1).drop_last() =~= values.take(i as int));
            assert(names.take(i + 1).drop_last() =~= names.take(i as int));
            assert(values.take(i + 1).last() == general@[i as int]@);
            assert(names.take(i + 1).last() == general@[i as int]@.0);
        }
        if !holds_name(own, general[i].name()) {
            out.insert(general[i].name(), general[i].model().to_owned());
            proof {
                let added = general@[i as int]@;
                assert(kept.push(added).drop_last() =~= kept);
                assert(route_views(out@) =~= before.insert(added.0, added.1));
            }
        }
        i += 1;
    }
    let ghost kept = unmasked(values, names, mine);
    let ghost more = agent_views(session@);
    proof {
        assert(values.take(values.len() as int) =~= values);
        assert(names.take(names.len() as int) =~= names);
        assert(kept + more.take(0) =~= kept);
    }
    let mut k: usize = 0;
    while k < session.len()
        invariant
            k <= session@.len(),
            route_views(out@) == routes(kept + more.take(k as int)),
        decreases session@.len() - k,
    {
        let ghost before = route_views(out@);
        out.insert(session[k].name(), session[k].model().to_owned());
        proof {
            let added = session@[k as int]@;
            assert(more[k as int] == added);
            assert((kept + more.take(k + 1)).drop_last() =~= kept + more.take(k as int));
            assert((kept + more.take(k + 1)).last() == added);
            assert(route_views(out@) =~= before.insert(added.0, added.1));
        }
        k += 1;
    }
    proof {
        assert(more.take(more.len() as int) =~= more);
    }
    out
}

/// A list of texts as documents.
pub open spec fn texts_document(texts: Seq<Seq<char>>) -> Seq<JsonView> {
    Seq::new(texts.len(), |i: int| JsonView::Text(texts[i]))
}

/// The fields of routes, by name.
pub open spec fn route_fields(names: Seq<Seq<char>>, services: Map<Seq<char>, Seq<char>>) -> Seq<
    (Seq<char>, JsonView),
> {
    Seq::new(names.len(), |i: int| (names[i], JsonView::Text(services[names[i]])))
}

/// What the engine is told of a session's capabilities.
pub open spec fn capabilities_document(
    paths: Seq<Seq<char>>,
    services: Map<Seq<char>, Seq<char>>,
) -> JsonView {
    JsonView::Object(
        seq![
            (
                "skills"@,
                JsonView::Object(seq![("paths"@, JsonView::List(texts_document(paths)))]),
            ),
            (
                "agentServices"@,
                JsonView::Object(route_fields(sorted_keys(services.dom()), services)),
            ),
        ],
    )
}

impl ResolvedCapabilities {
    /// What the engine is told of the session's capabilities; nothing when the session adds
    /// nothing to what the runtime has.
    #[verifier::loop_isolation(false)]
    pub fn session_meta(&self, base_skill_paths: &Vec<String>) -> (r: Option<Json>)
        ensures
            if self.skill_roots@.len() == 0 && self.agent_services@.dom().len() == 0 {
                r is None
            } else {
                r is Some && r->Some_0@ == capabilities_document(
                    text_views(base_skill_paths@) + text_views(self.skill_roots@),
                    route_views(self.agent_services@),
                )
            },
    {
        let count: usize = self.agent_services.len();
        if self.skill_roots.len() == 0 && count == 0 {
            return None;
        }
        let ghost paths = text_views(base_skill_paths@) + text_views(self.skill_roots@);
        let ghost wanted = texts_document(paths);
        let mut list: Vec<Json> = Vec::new();
        let mut i: usize = 0;
        proof {
            assert(list_view(list@) =~= wanted.take(0));
        }
        while i < base_skill_paths.len()
            invariant
                i <= base_skill_paths@.len(),
                list_view(list@) == wanted.take(i as int),
            decreases base_skill_paths@.len() - i,
        {
            push_item(&mut list, text_json(base_skill_paths[i].as_str()));
            proof {
                assert(paths[i as int] == base_skill_paths@[i as int]@);
                assert(wanted.take(i + 1) =~= wanted.take(i as int).push(wanted[i as int]));
            }
            i += 1;
        }
        let base: usize = base_skill_paths.len();
        let mut k: usize = 0;
        while k < self.skill_roots.len()
            invariant
                k <= self.skill_roots@.len(),
                list_view(list@) == wanted.take(base + k),
            decreases self.skill_roots@.len() - k,
        {
            push_item(&mut list, text_json(self.skill_roots[k].as_str()));
            proof {
                assert(paths[base + k] == self.skill_roots@[k as int]@);
                assert(wanted.take(base + k + 1) =~= wanted.take(base + k).push(wanted[base + k]));
            }
            k += 1;
        }
        proof {
            assert(wanted.take(wanted.len() as int) =~= wanted);
        }
        let ghost services = route_views(self.agent_services@);
        let ghost names = sorted_keys(services.dom());
        let ghost routed = route_fields(names, services);
        proof {
            assert(services.dom() =~= self.agent_services@.dom());
        }
        let mut table: Vec<(String, Json)> = Vec::new();
        let mut n: usize = 0;
        proof {
            assert(fields_view(table@) =~= routed.take(0));
        }
        while n < count
            invariant
                n <= count,
                fields_view(table@) == routed.take(n as int),
            decreases count - n,
        {
            let name = self.agent_services.key_at(n);
            let model = self.agent_services.value_at(n);
            push_field(&mut table, name, text_json(model.as_str()));
            proof {
                assert(names[n as int] == name@);
                assert(services[name@] == model@);
                assert(routed.take(n + 1) =~= routed.take(n as int).push(routed[n as int]));
            }
            n += 1;
        }
        proof {
            assert(routed.take(routed.len() as int) =~= routed);
        }
        let mut skills: Vec<(String, Json)> = Vec::new();
        push_field(&mut skills, "paths", Json::List(list));
        let mut fields: Vec<(String, Json)> = Vec::new();
        push_field(&mut fields, "skills", object_json(skills));
        push_field(&mut fields, "agentServices", object_json(table));
        proof {
            assert(fields_view(skills@) =~= seq![("paths"@, JsonView::List(wanted))]);
            assert(fields_view(fields@) =~= capabilities_document(paths, services)->Object_0);
        }
        Some(object_json(fields))
    }
}

proof fn lemma_general_bindings(
    kind: CapabilityKind,
    general: Seq<Seq<char>>,
    session: Seq<Seq<char>>,
    name: Seq<char>,
)
    ensures
        (exists|i: int|
            0 <= i < general_bindings(kind, general, session).len() && (#[trigger] general_bindings(
                kind,
                general,
                session,
            )[i]).name == name) == (general.contains(name) && !session.contains(name)),
        forall|i: int|
            0 <= i < general_bindings(kind, general, session).len() ==> (#[trigger] general_bindings(
                kind,
                general,
                session,
            )[i]).kind == kind && general_bindings(kind, general, session)[i].origin
                == CapabilityOrigin::General,
    decreases general.len(),
{
    let now = general_bindings(kind, general, session);
    if general.len() > 0 {
        let before = general_bindings(kind, general.drop_last(), session);
        let shorter = general.drop_last();
        lemma_general_bindings(kind, shorter, session, name);
        assert(general =~= shorter.push(general.last()));
        assert(general.contains(name) == (shorter.contains(name) || general.last() == name)) by {
            if shorter.contains(name) {
                let i = choose|i: int| 0 <= i < shorter.len() && shorter[i] == name;
                assert(general[i] == name);
            }
            if general.last() == name {
                assert(general[general.len() - 1] == name);
            }
            if general.contains(name) {
                let i = choose|i: int| 0 <= i < general.len() && general[i] == name;
                if i < shorter.len() {
                    assert(shorter[i] == name);
                }
            }
        }
        if !session.contains(general.last()) {
            assert(now == before.push(now.last()));
            if exists|i: int| 0 <= i < before.len() && (#[trigger] before[i]).name == name {
                let i = choose|i: int| 0 <= i < before.len() && (#[trigger] before[i]).name == name;
                assert(now[i].name == name);
            }
            if general.last() == name {
                assert(now[before.len() as int].name == name);
            }
            if exists|i: int| 0 <= i < now.len() && (#[trigger] now[i]).name == name {
                let i = choose|i: int| 0 <= i < now.len() && (#[trigger] now[i]).name == name;
                if i < before.len() {
                    assert(before[i].name == name);
                }
            }
        } else {
            assert(now == before);
        }
    } else {
        assert(now =~= Seq::empty());
    }
}

proof fn lemma_origin(
    kind: CapabilityKind,
    general: Seq<Seq<char>>,
    session: Seq<Seq<char>>,
    name: Seq<char>,
)
    ensures
        origin_from(kind_bindings(kind, general, session), kind, name, 0) == if session.contains(
            name,
        ) {
            Some(CapabilityOrigin::Session)
        } else if general.contains(name) {
            Some(CapabilityOrigin::General)
        } else {
            None
        },
{
    let bound = kind_bindings(kind, general, session);
    let left = general_bindings(kind, general, session);
    lemma_general_bindings(kind, general, session, name);
    lemma_origin_from(bound, kind, name, 0);
    let n = left.len() as int;
    assert forall|i: int| 0 <= i < n implies bound[i] == left[i] by {}
    assert forall|i: int| n <= i < bound.len() implies bound[i] == (BindingView {
        kind,
        name: session[i - n],
        origin: CapabilityOrigin::Session,
    }) by {}
    if session.contains(name) {
        let j = choose|j: int| 0 <= j < session.len() && session[j] == name;
        assert(bound[n + j].name == name);
        assert(bound[n + j].kind == kind);
    } else if general.contains(name) {
        let i = choose|i: int| 0 <= i < left.len() && (#[trigger] left[i]).name == name;
        assert(bound[i].name == name);
    }
    if origin_from(bound, kind, name, 0) is Some {
        let i = choose|i: int|
            0 <= i < bound.len() && (#[trigger] bound[i]).name == name && bound[i].kind == kind
                && Some(bound[i].origin) == origin_from(bound, kind, name, 0);
        if i < n {
            assert(left[i].name == name);
        } else {
            assert(session[i - n] == name);
            assert(session.contains(name));
        }
    }
}

proof fn lemma_origin_from(
    bindings: Seq<BindingView>,
    kind: CapabilityKind,
    name: Seq<char>,
    from: int,
)
    requires
        0 <= from <= bindings.len(),
    ensures
        origin_from(bindings, kind, name, from) is Some ==> exists|i: int|
            from <= i < bindings.len() && (#[trigger] bindings[i]).name == name && bindings[i].kind
                == kind && Some(bindings[i].origin) == origin_from(bindings, kind, name, from),
        origin_from(bindings, kind, name, from) is None ==> forall|i: int|
            from <= i < bindings.len() ==> !((#[trigger] bindings[i]).name == name
                && bindings[i].kind == kind),
    decreases bindings.len() - from,
{
    if from < bindings.len() {
        if bindings[from].kind == kind && bindings[from].name == name {
            assert(bindings[from].name == name);
        } else {
            lemma_origin_from(bindings, kind, name, from + 1);
        }
    }
}

proof fn lemma_origin_skips(
    before: Seq<BindingView>,
    after: Seq<BindingView>,
    kind: CapabilityKind,
    name: Seq<char>,
    from: int,
)
    requires
        0 <= from <= before.len(),
    ensures
        origin_from(before + after, kind, name, from) == match origin_from(
            before,
            kind,
            name,
            from,
        ) {
            Some(origin) => Some(origin),
            None => origin_from(after, kind, name, 0),
        },
    decreases before.len() - from,
{
    let all = before + after;
    if from < before.len() {
        assert(all[from] == before[from]);
        lemma_origin_skips(before, after, kind, name, from + 1);
    } else {
        lemma_origin_shifted(before, after, kind, name, 0);
    }
}

proof fn lemma_origin_shifted(
    before: Seq<BindingView>,
    after: Seq<BindingView>,
    kind: CapabilityKind,
    name: Seq<char>,
    at: int,
)
    requires
        0 <= at <= after.len(),
    ensures
        origin_from(before + after, kind, name, before.len() + at) == origin_from(
            after,
            kind,
            name,
            at,
        ),
    decreases after.len() - at,
{
    if at < after.len() {
        assert((before + after)[before.len() + at] == after[at]);
        lemma_origin_shifted(before, after, kind, name, at + 1);
    }
}

/// The bindings of one kind say nothing of another.
proof fn lemma_origin_elsewhere(
    kind: CapabilityKind,
    general: Seq<Seq<char>>,
    session: Seq<Seq<char>>,
    other: CapabilityKind,
    name: Seq<char>,
)
    requires
        kind != other,
    ensures
        origin_from(kind_bindings(kind, general, session), other, name, 0) is None,
{
    let bound = kind_bindings(kind, general, session);
    let left = general_bindings(kind, general, session);
    lemma_general_bindings(kind, general, session, name);
    lemma_origin_from(bound, other, name, 0);
    assert forall|i: int| 0 <= i < bound.len() implies bound[i].kind == kind by {
        if i < left.len() {
            assert(bound[i] == left[i]);
        }
    }
}

/// The names of a kind that a layer contributes.
pub open spec fn layer_names(layer: LayerView, kind: CapabilityKind) -> Seq<Seq<char>> {
    match kind {
        CapabilityKind::Skill => pair_names(layer.skills),
        CapabilityKind::McpService => mcp_names(layer.mcp_services),
        CapabilityKind::AgentService => pair_names(layer.agent_services),
    }
}

/// The layer that contributes nothing.
pub open spec fn empty_layer() -> LayerView {
    LayerView { skills: Seq::empty(), mcp_services: Seq::empty(), agent_services: Seq::empty() }
}

/// The named skills of a session: the general ones that it leaves alone, and its own.
pub open spec fn resolved_skills(general: LayerView, session: LayerView) -> Seq<
    (Seq<char>, Seq<char>),
> {
    unmasked(general.skills, pair_names(general.skills), pair_names(session.skills))
        + session.skills
}

/// The mounts of a session: the general ones that it leaves alone, and its own.
pub open spec fn resolved_mounts(general: LayerView, session: LayerView) -> Seq<McpServerView> {
    unmasked(
        general.mcp_services,
        mcp_names(general.mcp_services),
        mcp_names(session.mcp_services),
    ) + session.mcp_services
}

proof fn lemma_unmasked<T>(
    general: Seq<T>,
    names: Seq<Seq<char>>,
    session: Seq<Seq<char>>,
    x: T,
)
    requires
        names.len() == general.len(),
    ensures
        unmasked(general, names, session).contains(x) <==> exists|i: int|
            0 <= i < general.len() && #[trigger] general[i] == x && !session.contains(names[i]),
    decreases general.len(),
{
    let now = unmasked(general, names, session);
    if general.len() > 0 {
        let before = unmasked(general.drop_last(), names.drop_last(), session);
        let shorter = general.drop_last();
        let fewer = names.drop_last();
        lemma_unmasked(shorter, fewer, session, x);
        let n = general.len() - 1;
        if before.contains(x) {
            let i = choose|i: int|
                0 <= i < shorter.len() && #[trigger] shorter[i] == x && !session.contains(fewer[i]);
            assert(general[i] == x && names[i] == fewer[i]);
            let j = choose|j: int| 0 <= j < before.len() && before[j] == x;
            assert(now[j] == x);
        }
        if !session.contains(names.last()) {
            assert(now[before.len() as int] == general.last());
            assert(general[n] == general.last() && names[n] == names.last());
        }
        if now.contains(x) && !before.contains(x) {
            let j = choose|j: int| 0 <= j < now.len() && now[j] == x;
            if j < before.len() {
                assert(before[j] == x);
            }
            assert(general[n] == x && names[n] == names.last());
        }
        if exists|i: int|
            0 <= i < general.len() && #[trigger] general[i] == x && !session.contains(names[i]) {
            let i = choose|i: int|
                0 <= i < general.len() && #[trigger] general[i] == x && !session.contains(names[i]);
            if i < n {
                assert(shorter[i] == x && fewer[i] == names[i]);
            }
        }
    } else {
        assert(now =~= Seq::empty());
    }
}

proof fn lemma_unmasked_values(
    pairs: Seq<(Seq<char>, Seq<char>)>,
    names: Seq<Seq<char>>,
    session: Seq<Seq<char>>,
)
    requires
        names.len() == pairs.len(),
    ensures
        unmasked(pair_values(pairs), names, session) == pair_values(
            unmasked(pairs, names, session),
        ),
    decreases pairs.len(),
{
    if pairs.len() > 0 {
        lemma_unmasked_values(pairs.drop_last(), names.drop_last(), session);
        assert(pair_values(pairs).drop_last() =~= pair_values(pairs.drop_last()));
    }
    assert(unmasked(pair_values(pairs), names, session) =~= pair_values(
        unmasked(pairs, names, session),
    ));
}

proof fn lemma_unmasked_all<T>(general: Seq<T>, names: Seq<Seq<char>>)
    requires
        names.len() == general.len(),
    ensures
        unmasked(general, names, Seq::empty()) == general,
    decreases general.len(),
{
    if general.len() > 0 {
        lemma_unmasked_all(general.drop_last(), names.drop_last());
        assert(!Seq::<Seq<char>>::empty().contains(names.last()));
        assert(general.drop_last().push(general.last()) =~= general);
    }
    assert(unmasked(general, names, Seq::empty()) =~= general);
}

/// All names of a kind, supplied by the general layer.
pub open spec fn plain_bindings(kind: CapabilityKind, names: Seq<Seq<char>>) -> Seq<BindingView> {
    Seq::new(
        names.len(),
        |i: int| BindingView { kind, name: names[i], origin: CapabilityOrigin::General },
    )
}

proof fn lemma_plain_bindings(kind: CapabilityKind, names: Seq<Seq<char>>)
    ensures
        kind_bindings(kind, names, Seq::empty()) == plain_bindings(kind, names),
        kind_masked(kind, names, Seq::empty()) == Seq::<(CapabilityKind, Seq<char>)>::empty(),
    decreases names.len(),
{
    let none = Seq::<Seq<char>>::empty();
    if names.len() > 0 {
        lemma_plain_bindings(kind, names.drop_last());
        assert(!none.contains(names.last()));
        assert(kind_bindings(kind, names.drop_last(), none) =~= general_bindings(
            kind,
            names.drop_last(),
            none,
        ));
        assert(plain_bindings(kind, names) =~= plain_bindings(kind, names.drop_last()).push(
            BindingView { kind, name: names.last(), origin: CapabilityOrigin::General },
        ));
    }
    assert(kind_bindings(kind, names, none) =~= plain_bindings(kind, names));
}

proof fn lemma_routes_behind(
    before: Seq<(Seq<char>, Seq<char>)>,
    after: Seq<(Seq<char>, Seq<char>)>,
    name: Seq<char>,
)
    ensures
        !pair_names(after).contains(name) ==> routes(before + after).dom().contains(name) == routes(
            before,
        ).dom().contains(name) && (routes(before).dom().contains(name) ==> routes(before + after)[
            name
        ] == routes(before)[name]),
        pair_names(after).contains(name) ==> routes(before + after).dom().contains(name) && routes(
            before + after,
        )[name] == routes(after)[name],
    decreases after.len(),
{
    if after.len() == 0 {
        assert(before + after =~= before);
        assert(!pair_names(after).contains(name));
    } else {
        let rest = after.drop_last();
        lemma_routes_behind(before, rest, name);
        assert((before + after).drop_last() =~= before + rest);
        assert((before + after).last() == after.last());
        assert(pair_names(after) =~= pair_names(rest).push(after.last().0));
        assert(pair_names(after).contains(name) == (pair_names(rest).contains(name)
            || after.last().0 == name)) by {
            if pair_names(rest).contains(name) {
                let i = choose|i: int|
                    0 <= i < pair_names(rest).len() && pair_names(rest)[i] == name;
                assert(pair_names(after)[i] == name);
            }
            if after.last().0 == name {
                assert(pair_names(after)[after.len() - 1] == name);
            }
            if pair_names(after).contains(name) {
                let i = choose|i: int|
                    0 <= i < pair_names(after).len() && pair_names(after)[i] == name;
                if i < rest.len() {
                    assert(pair_names(rest)[i] == name);
                }
            }
        }
    }
}

proof fn lemma_routes_unmasked(
    pairs: Seq<(Seq<char>, Seq<char>)>,
    session: Seq<Seq<char>>,
    name: Seq<char>,
)
    requires
        !session.contains(name),
    ensures
        ({
            let left = routes(unmasked(pairs, pair_names(pairs), session));
            left.dom().contains(name) == routes(pairs).dom().contains(name) && (
            left.dom().contains(name) ==> left[name] == routes(pairs)[name])
        }),
    decreases pairs.len(),
{
    if pairs.len() > 0 {
        let rest = pairs.drop_last();
        lemma_routes_unmasked(rest, session, name);
        assert(pair_names(pairs).drop_last() =~= pair_names(rest));
        let before = unmasked(rest, pair_names(rest), session);
        assert(pair_names(pairs).last() == pairs.last().0);
        if !session.contains(pairs.last().0) {
            let now = unmasked(pairs, pair_names(pairs), session);
            assert(now.drop_last() =~= before);
        }
    }
}

/// Under a session layer that contributes nothing the session sees exactly the general layer:
/// every entry with its own root, mount or model, supplied by the general layer, and nothing is
/// masked.
pub proof fn law_empty_session_sees_the_general_layer(general: LayerView)
    ensures
        resolved_bindings(general, empty_layer()) == plain_bindings(
            CapabilityKind::Skill,
            pair_names(general.skills),
        ) + plain_bindings(CapabilityKind::McpService, mcp_names(general.mcp_services))
            + plain_bindings(CapabilityKind::AgentService, pair_names(general.agent_services)),
        resolved_masked(general, empty_layer()) == Seq::<(CapabilityKind, Seq<char>)>::empty(),
        resolved_skills(general, empty_layer()) == general.skills,
        resolved_mounts(general, empty_layer()) == general.mcp_services,
        resolved_routes(general, empty_layer()) == routes(general.agent_services),
{
    let none = Seq::<Seq<char>>::empty();
    assert(pair_names(empty_layer().skills) =~= none);
    assert(mcp_names(empty_layer().mcp_services) =~= none);
    assert(pair_names(empty_layer().agent_services) =~= none);
    lemma_plain_bindings(CapabilityKind::Skill, pair_names(general.skills));
    lemma_plain_bindings(CapabilityKind::McpService, mcp_names(general.mcp_services));
    lemma_plain_bindings(CapabilityKind::AgentService, pair_names(general.agent_services));
    lemma_unmasked_all(general.skills, pair_names(general.skills));
    lemma_unmasked_all(general.mcp_services, mcp_names(general.mcp_services));
    lemma_unmasked_all(general.agent_services, pair_names(general.agent_services));
    assert(resolved_masked(general, empty_layer()) =~= Seq::empty());
    assert(resolved_skills(general, empty_layer()) =~= general.skills);
    assert(resolved_mounts(general, empty_layer()) =~= general.mcp_services);
    assert(general.agent_services + Seq::<(Seq<char>, Seq<char>)>::empty()
        =~= general.agent_services);
}

/// A name of a kind is supplied by the session when the session contributes it, by the general
/// layer when only that does, and by nobody else. A session masks exactly the general
/// contributions of the same kind and name: what it does not name keeps its origin, and its root,
/// mount or model, as under a session that contributes nothing.
#[verifier::spinoff_prover]
#[verifier::rlimit(40)]
pub proof fn law_sessions_mask_only_same_names(
    general: LayerView,
    session: LayerView,
    kind: CapabilityKind,
    name: Seq<char>,
)
    ensures
        origin_from(resolved_bindings(general, session), kind, name, 0) == if layer_names(
            session,
            kind,
        ).contains(name) {
            Some(CapabilityOrigin::Session)
        } else if layer_names(general, kind).contains(name) {
            Some(CapabilityOrigin::General)
        } else {
            None
        },
        !layer_names(session, kind).contains(name) ==> origin_from(
            resolved_bindings(general, session),
            kind,
            name,
            0,
        ) == origin_from(resolved_bindings(general, empty_layer()), kind, name, 0),
        unmasked(
            pair_values(general.skills),
            pair_names(general.skills),
            pair_names(session.skills),
        ) + pair_values(session.skills) == pair_values(resolved_skills(general, session)),
        forall|skill: (Seq<char>, Seq<char>)|
            #[trigger] resolved_skills(general, session).contains(skill) <==> (
            session.skills.contains(skill) || (general.skills.contains(skill) && !pair_names(
                session.skills,
            ).contains(skill.0))),
        forall|mount: McpServerView|
            #[trigger] resolved_mounts(general, session).contains(mount) <==> (
            session.mcp_services.contains(mount) || (general.mcp_services.contains(mount)
                && !mcp_names(session.mcp_services).contains(mount.name()))),
        !pair_names(session.agent_services).contains(name) ==> {
            let seen = resolved_routes(general, session);
            let alone = resolved_routes(general, empty_layer());
            seen.dom().contains(name) == alone.dom().contains(name) && (seen.dom().contains(name)
                ==> seen[name] == alone[name])
        },
        pair_names(session.agent_services).contains(name) ==> resolved_routes(
            general,
            session,
        ).dom().contains(name) && resolved_routes(general, session)[name] == routes(
            session.agent_services,
        )[name],
{
    lemma_resolved_origin(general, session, kind, name);
    lemma_resolved_origin(general, empty_layer(), kind, name);
    assert(layer_names(empty_layer(), kind) =~= Seq::empty());
    assert(!layer_names(empty_layer(), kind).contains(name));
    law_empty_session_sees_the_general_layer(general);
    lemma_unmasked_values(
        general.skills,
        pair_names(general.skills),
        pair_names(session.skills),
    );
    assert(unmasked(
        pair_values(general.skills),
        pair_names(general.skills),
        pair_names(session.skills),
    ) + pair_values(session.skills) =~= pair_values(resolved_skills(general, session)));
    assert forall|skill: (Seq<char>, Seq<char>)|
        #[trigger] resolved_skills(general, session).contains(skill) <==> (
        session.skills.contains(skill) || (general.skills.contains(skill) && !pair_names(
            session.skills,
        ).contains(skill.0))) by {
        let names = pair_names(general.skills);
        let own = pair_names(session.skills);
        let left = unmasked(general.skills, names, own);
        lemma_unmasked(general.skills, names, own, skill);
        lemma_contains_join(left, session.skills, skill);
        assert forall|i: int| 0 <= i < general.skills.len() implies names[i]
            == #[trigger] general.skills[i].0 by {}
        if general.skills.contains(skill) && !own.contains(skill.0) {
            let i = choose|i: int| 0 <= i < general.skills.len() && general.skills[i] == skill;
            assert(general.skills[i] == skill && !own.contains(names[i]));
        }
    }
    assert forall|mount: McpServerView|
        #[trigger] resolved_mounts(general, session).contains(mount) <==> (
        session.mcp_services.contains(mount) || (general.mcp_services.contains(mount)
            && !mcp_names(session.mcp_services).contains(mount.name()))) by {
        let names = mcp_names(general.mcp_services);
        let own = mcp_names(session.mcp_services);
        let left = unmasked(general.mcp_services, names, own);
        lemma_unmasked(general.mcp_services, names, own, mount);
        lemma_contains_join(left, session.mcp_services, mount);
        if general.mcp_services.contains(mount) && !own.contains(mount.name()) {
            let i = choose|i: int|
                0 <= i < general.mcp_services.len() && general.mcp_services[i] == mount;
            assert(general.mcp_services[i] == mount && !own.contains(names[i]));
        }
    }
    let left = unmasked(
        general.agent_services,
        pair_names(general.agent_services),
        pair_names(session.agent_services),
    );
    lemma_routes_behind(left, session.agent_services, name);
    if !pair_names(session.agent_services).contains(name) {
        lemma_routes_unmasked(general.agent_services, pair_names(session.agent_services), name);
    }
}

proof fn lemma_contains_join<T>(a: Seq<T>, b: Seq<T>, x: T)
    ensures
        (a + b).contains(x) <==> a.contains(x) || b.contains(x),
{
    let all = a + b;
    if a.contains(x) {
        let i = choose|i: int| 0 <= i < a.len() && a[i] == x;
        assert(all[i] == x);
    }
    if b.contains(x) {
        let i = choose|i: int| 0 <= i < b.len() && b[i] == x;
        assert(all[a.len() + i] == x);
    }
    if all.contains(x) {
        let i = choose|i: int| 0 <= i < all.len() && all[i] == x;
        if i < a.len() {
            assert(a[i] == x);
        } else {
            assert(b[i - a.len()] == x);
        }
    }
}

proof fn lemma_resolved_origin(
    general: LayerView,
    session: LayerView,
    kind: CapabilityKind,
    name: Seq<char>,
)
    ensures
        origin_from(resolved_bindings(general, session), kind, name, 0) == if layer_names(
            session,
            kind,
        ).contains(name) {
            Some(CapabilityOrigin::Session)
        } else if layer_names(general, kind).contains(name) {
            Some(CapabilityOrigin::General)
        } else {
            None
        },
{
    let a = CapabilityKind::Skill;
    let b = CapabilityKind::McpService;
    let c = CapabilityKind::AgentService;
    let first = kind_bindings(a, layer_names(general, a), layer_names(session, a));
    let second = kind_bindings(b, layer_names(general, b), layer_names(session, b));
    let third = kind_bindings(c, layer_names(general, c), layer_names(session, c));
    lemma_origin_skips(first + second, third, kind, name, 0);
    lemma_origin_skips(first, second, kind, name, 0);
    lemma_origin(kind, layer_names(general, kind), layer_names(session, kind), name);
    if kind != a {
        lemma_origin_elsewhere(a, layer_names(general, a), layer_names(session, a), kind, name);
    }
    if kind != b {
        lemma_origin_elsewhere(b, layer_names(general, b), layer_names(session, b), kind, name);
    }
    if kind != c {
        lemma_origin_elsewhere(c, layer_names(general, c), layer_names(session, c), kind, name);
    }
}

proof fn lemma_kind_masked(
    kind: CapabilityKind,
    general: Seq<Seq<char>>,
    session: Seq<Seq<char>>,
    of: CapabilityKind,
    name: Seq<char>,
)
    ensures
        kind_masked(kind, general, session).contains((of, name)) <==> of == kind
            && general.contains(name) && session.contains(name),
    decreases general.len(),
{
    let now = kind_masked(kind, general, session);
    let pair = (of, name);
    if general.len() > 0 {
        let shorter = general.drop_last();
        let before = kind_masked(kind, shorter, session);
        let n = general.len() - 1;
        lemma_kind_masked(kind, shorter, session, of, name);
        if before.contains(pair) {
            let j = choose|j: int| 0 <= j < before.len() && before[j] == pair;
            assert(now[j] == pair);
            let i = choose|i: int| 0 <= i < shorter.len() && shorter[i] == name;
            assert(general[i] == name);
        }
        if session.contains(general.last()) {
            assert(now[before.len() as int] == (kind, general.last()));
            assert(general[n] == general.last());
        }
        if now.contains(pair) && !before.contains(pair) {
            let j = choose|j: int| 0 <= j < now.len() && now[j] == pair;
            if j < before.len() {
                assert(before[j] == pair);
            }
            assert(general[n] == name);
        }
        if general.contains(name) && !shorter.contains(name) {
            let i = choose|i: int| 0 <= i < general.len() && general[i] == name;
            if i < n {
                assert(shorter[i] == name);
            }
        }
    } else {
        assert(now =~= Seq::empty());
    }
}

/// A capability is masked exactly where both layers contribute its kind and name. Neither a name of
/// the general layer alone, nor one of the session alone, nor one of another kind is.
pub proof fn law_masked_names_stand_in_both_layers(
    general: LayerView,
    session: LayerView,
    kind: CapabilityKind,
    name: Seq<char>,
)
    ensures
        resolved_masked(general, session).contains((kind, name)) <==> layer_names(
            general,
            kind,
        ).contains(name) && layer_names(session, kind).contains(name),
{
    let a = CapabilityKind::Skill;
    let b = CapabilityKind::McpService;
    let c = CapabilityKind::AgentService;
    let first = kind_masked(a, layer_names(general, a), layer_names(session, a));
    let second = kind_masked(b, layer_names(general, b), layer_names(session, b));
    let third = kind_masked(c, layer_names(general, c), layer_names(session, c));
    lemma_kind_masked(a, layer_names(general, a), layer_names(session, a), kind, name);
    lemma_kind_masked(b, layer_names(general, b), layer_names(session, b), kind, name);
    lemma_kind_masked(c, layer_names(general, c), layer_names(session, c), kind, name);
    lemma_contains_join(first + second, third, (kind, name));
    lemma_contains_join(first, second, (kind, name));
}

proof fn lemma_routes_last(services: Seq<(Seq<char>, Seq<char>)>, k: int)
    requires
        0 <= k < services.len(),
        forall|i: int| k < i < services.len() ==> (#[trigger] services[i]).0 != services[k].0,
    ensures
        routes(services).dom().contains(services[k].0),
        routes(services)[services[k].0] == services[k].1,
    decreases services.len(),
{
    let n = services.len() - 1;
    if k < n {
        assert(services[n].0 != services[k].0);
        assert forall|i: int| k < i < services.drop_last().len() implies (
        #[trigger] services.drop_last()[i]).0 != services.drop_last()[k].0 by {
            assert(services[i].0 != services[k].0);
        }
        lemma_routes_last(services.drop_last(), k);
    }
}

/// A service leads to the model that it names: of several with one name the last one counts, and a
/// name that none of them has leads nowhere.
pub proof fn law_routes_lead_where_they_say(
    services: Seq<(Seq<char>, Seq<char>)>,
    k: int,
    name: Seq<char>,
)
    requires
        0 <= k < services.len(),
        forall|i: int| k < i < services.len() ==> (#[trigger] services[i]).0 != services[k].0,
    ensures
        routes(services).dom().contains(services[k].0),
        routes(services)[services[k].0] == services[k].1,
        routes(services).dom().contains(name) ==> (exists|i: int|
            0 <= i < services.len() && (#[trigger] services[i]).0 == name),
{
    lemma_routes_last(services, k);
    lemma_routes_named(services, name);
}

proof fn lemma_routes_named(services: Seq<(Seq<char>, Seq<char>)>, name: Seq<char>)
    ensures
        routes(services).dom().contains(name) ==> (exists|i: int|
            0 <= i < services.len() && (#[trigger] services[i]).0 == name),
    decreases services.len(),
{
    if services.len() > 0 {
        let shorter = services.drop_last();
        lemma_routes_named(shorter, name);
        if services.last().0 == name {
            assert(services[services.len() - 1].0 == name);
        } else if routes(services).dom().contains(name) {
            let i = choose|i: int| 0 <= i < shorter.len() && (#[trigger] shorter[i]).0 == name;
            assert(services[i].0 == name);
        }
    }
}

proof fn lemma_skills_sound(skills: Seq<(Seq<char>, Seq<char>)>, from: int)
    requires
        0 <= from,
    ensures
        skills_fault(skills, from) is None <==> (forall|i: int|
            from <= i < skills.len() ==> skill_fault(#[trigger] skills[i]) is None),
    decreases skills.len() - from,
{
    if from < skills.len() {
        lemma_skills_sound(skills, from + 1);
        if skills_fault(skills, from) is None {
            assert forall|i: int| from <= i < skills.len() implies skill_fault(
                #[trigger] skills[i],
            ) is None by {
                if i > from {
                    assert(from + 1 <= i);
                }
            }
        }
    }
}

proof fn lemma_agents_sound(services: Seq<(Seq<char>, Seq<char>)>, from: int)
    requires
        0 <= from,
    ensures
        agents_fault(services, from) is None <==> (forall|i: int|
            from <= i < services.len() ==> agent_fault(#[trigger] services[i]) is None),
    decreases services.len() - from,
{
    if from < services.len() {
        lemma_agents_sound(services, from + 1);
    }
}

proof fn lemma_names_sound(names: Seq<Seq<char>>, from: int)
    requires
        0 <= from,
    ensures
        names_fault(names, from) is None <==> (forall|i: int|
            from <= i < names.len() ==> is_capability_name(#[trigger] names[i])),
    decreases names.len() - from,
{
    if from < names.len() {
        lemma_names_sound(names, from + 1);
    }
}

proof fn lemma_none_repeated(kind: CapabilityKind, names: Seq<Seq<char>>, from: int)
    requires
        0 <= from,
    ensures
        repeated(kind, names, from) is None <==> (forall|i: int, j: int|
            0 <= i < j < names.len() && from <= j ==> #[trigger] names[i] != #[trigger] names[j]),
    decreases names.len() - from,
{
    if from < names.len() {
        lemma_none_repeated(kind, names, from + 1);
        let head = names.take(from);
        if head.contains(names[from]) {
            let i = choose|i: int| 0 <= i < head.len() && head[i] == names[from];
            assert(names[i] == names[from]);
        } else {
            assert forall|i: int| 0 <= i < from implies names[i] != names[from] by {
                assert(head[i] == names[i]);
                assert(head.contains(head[i]));
            }
        }
    }
}

/// A layer is in order exactly where no kind has more entries than a layer may hold, every skill,
/// mount and service is in order by itself, and no name of a kind stands twice.
pub proof fn law_layers_are_sound_entry_by_entry(layer: LayerView)
    ensures
        layer_fault(layer) is None <==> {
            &&& layer.skills.len() <= MAX_CAPABILITY_LAYER_ENTRIES
            &&& layer.mcp_services.len() <= MAX_CAPABILITY_LAYER_ENTRIES
            &&& layer.agent_services.len() <= MAX_CAPABILITY_LAYER_ENTRIES
            &&& forall|i: int|
                0 <= i < layer.skills.len() ==> skill_fault(#[trigger] layer.skills[i]) is None
            &&& forall|i: int|
                0 <= i < layer.mcp_services.len() ==> is_capability_name(
                    (#[trigger] layer.mcp_services[i]).name(),
                )
            &&& forall|i: int|
                0 <= i < layer.agent_services.len() ==> agent_fault(
                    #[trigger] layer.agent_services[i],
                ) is None
            &&& layer_names(layer, CapabilityKind::Skill).no_duplicates()
            &&& layer_names(layer, CapabilityKind::McpService).no_duplicates()
            &&& layer_names(layer, CapabilityKind::AgentService).no_duplicates()
        },
{
    let mounts = mcp_names(layer.mcp_services);
    lemma_skills_sound(layer.skills, 0);
    lemma_agents_sound(layer.agent_services, 0);
    lemma_names_sound(mounts, 0);
    lemma_none_repeated(CapabilityKind::Skill, pair_names(layer.skills), 0);
    lemma_none_repeated(CapabilityKind::McpService, mounts, 0);
    lemma_none_repeated(CapabilityKind::AgentService, pair_names(layer.agent_services), 0);
    assert forall|i: int| 0 <= i < layer.mcp_services.len() implies mounts[i] == (
    #[trigger] layer.mcp_services[i]).name() by {}
    if forall|i: int|
        0 <= i < layer.mcp_services.len() ==> is_capability_name(
            (#[trigger] layer.mcp_services[i]).name(),
        ) {
        assert forall|i: int| 0 <= i < mounts.len() implies is_capability_name(
            #[trigger] mounts[i],
        ) by {
            assert(mounts[i] == layer.mcp_services[i].name());
        }
    }
}

proof fn lemma_names_of(bindings: Seq<BindingView>, kind: CapabilityKind, name: Seq<char>)
    ensures
        names_of(bindings, kind).contains(name) <==> (exists|i: int|
            0 <= i < bindings.len() && (#[trigger] bindings[i]).kind == kind && bindings[i].name
                == name),
    decreases bindings.len(),
{
    let now = names_of(bindings, kind);
    if bindings.len() > 0 {
        let n = bindings.len() - 1;
        let shorter = bindings.drop_last();
        let before = names_of(shorter, kind);
        lemma_names_of(shorter, kind, name);
        if before.contains(name) {
            let j = choose|j: int| 0 <= j < before.len() && before[j] == name;
            assert(now[j] == name);
            let i = choose|i: int|
                0 <= i < shorter.len() && (#[trigger] shorter[i]).kind == kind && shorter[i].name
                    == name;
            assert(bindings[i].kind == kind && bindings[i].name == name);
        }
        if bindings.last().kind == kind {
            assert(now[before.len() as int] == bindings.last().name);
            assert(bindings[n] == bindings.last());
        }
        if now.contains(name) && !before.contains(name) {
            let j = choose|j: int| 0 <= j < now.len() && now[j] == name;
            if j < before.len() {
                assert(before[j] == name);
            }
            assert(bindings[n].kind == kind && bindings[n].name == name);
        }
        if exists|i: int|
            0 <= i < bindings.len() && (#[trigger] bindings[i]).kind == kind && bindings[i].name
                == name {
            let i = choose|i: int|
                0 <= i < bindings.len() && (#[trigger] bindings[i]).kind == kind
                    && bindings[i].name == name;
            if i < n {
                assert(shorter[i].kind == kind && shorter[i].name == name);
            }
        }
    } else {
        assert(now =~= Seq::empty());
    }
}

/// The effective names of a kind are exactly those that bindings of this kind have.
pub proof fn law_effective_names_are_bound(
    bindings: Seq<BindingView>,
    kind: CapabilityKind,
    name: Seq<char>,
)
    ensures
        names_of(bindings, kind).contains(name) <==> (exists|i: int|
            0 <= i < bindings.len() && (#[trigger] bindings[i]).kind == kind && bindings[i].name
                == name),
{
    lemma_names_of(bindings, kind, name);
}

} // verus!
