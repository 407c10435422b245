//! Ledger entries and the skill contracts that some of them carry.

use crate::evolution::{
    first_of, invalid, joined3, refusal, text_fault, validate_text, EvolutionError, Refusal,
    MAX_ENTRY_SOURCE_BYTES, MAX_HARNESS_ENTRY_CONTENT_BYTES, MAX_HARNESS_ENTRY_ID_BYTES,
    MAX_HARNESS_ENTRY_TITLE_BYTES, MAX_HARNESS_SKILL_ARGUMENTS, MAX_SKILL_ARGUMENT_DOC_BYTES,
    MAX_SKILL_ARGUMENT_NAME_BYTES, MAX_SKILL_INVOCATION_BYTES,
};
use crate::text::{
    alphanumeric, byte_len, chars_of, decimal, digit, is_alphanumeric, is_digit, is_lower, lower,
    push_decimal, same_text, text_of, to_lower, utf8_len,
};
use crate::text_map::{sorted_keys, TextMap};
use vstd::prelude::*;

verus! {

/// The supplemental kinds that a refinement may evolve.
#[derive(Clone, Copy, Debug, PartialEq, Eq, PartialOrd, Ord, Hash, Structural)]
pub enum HarnessEntryKind {
    Prompt,
    Memory,
    Skill,
    Subagent,
}

impl HarnessEntryKind {
    /// The name of the kind.
    pub open spec fn name(self) -> Seq<char> {
        match self {
            HarnessEntryKind::Prompt => "prompt"@,
            HarnessEntryKind::Memory => "memory"@,
            HarnessEntryKind::Skill => "skill"@,
            HarnessEntryKind::Subagent => "subagent"@,
        }
    }

    /// The heading of the kind's section.
    pub open spec fn heading(self) -> Seq<char> {
        match self {
            HarnessEntryKind::Prompt => "Prompt Notes"@,
            HarnessEntryKind::Memory => "Memories"@,
            HarnessEntryKind::Skill => "Skills"@,
            HarnessEntryKind::Subagent => "Subagents"@,
        }
    }

    pub fn as_str(self) -> (r: &'static str)
        ensures
            r@ == self.name(),
    {
        match self {
            HarnessEntryKind::Prompt => "prompt",
            HarnessEntryKind::Memory => "memory",
            HarnessEntryKind::Skill => "skill",
            HarnessEntryKind::Subagent => "subagent",
        }
    }

    /// The heading of the kind's section.
    pub fn section_heading(self) -> (r: &'static str)
        ensures
            r@ == self.heading(),
    {
        match self {
            HarnessEntryKind::Prompt => "Prompt Notes",
            HarnessEntryKind::Memory => "Memories",
            HarnessEntryKind::Skill => "Skills",
            HarnessEntryKind::Subagent => "Subagents",
        }
    }
}

/// The texts of a map.
pub open spec fn texts(m: Map<Seq<char>, String>) -> Map<Seq<char>, Seq<char>> {
    m.map_values(|s: String| s@)
}

/// The routing contract of one capability that is already available.
#[derive(Debug, PartialEq, Eq)]
pub struct HarnessSkillContract {
    pub invocation: String,
    pub arguments: TextMap<String>,
}

/// What a [`HarnessSkillContract`] says.
pub struct SkillView {
    pub invocation: Seq<char>,
    pub arguments: Map<Seq<char>, Seq<char>>,
}

impl View for HarnessSkillContract {
    type V = SkillView;

    open spec fn view(&self) -> SkillView {
        SkillView { invocation: self.invocation@, arguments: texts(self.arguments@) }
    }
}

/// Whether a text may name a skill argument.
pub open spec fn argument_name(name: Seq<char>) -> bool {
    &&& 0 < utf8_len(name) <= MAX_SKILL_ARGUMENT_NAME_BYTES
    &&& forall|i: int|
        0 <= i < name.len() ==> is_alphanumeric(#[trigger] name[i]) || name[i] == '_' || name[i]
            == '-'
}

/// What is wrong with one skill argument.
pub open spec fn argument_fault(name: Seq<char>, doc: Seq<char>) -> Option<Refusal> {
    if !argument_name(name) {
        Some(Refusal::Invalid("invalid skill argument name '"@ + name + "'"@))
    } else {
        text_fault(doc, MAX_SKILL_ARGUMENT_DOC_BYTES, "skill argument documentation"@, true)
    }
}

/// What is wrong with the first faulty argument among `keys`.
pub open spec fn arguments_fault(
    keys: Seq<Seq<char>>,
    arguments: Map<Seq<char>, Seq<char>>,
) -> Option<Refusal>
    decreases keys.len(),
{
    if keys.len() == 0 {
        None
    } else {
        first_of(
            argument_fault(keys[0], arguments[keys[0]]),
            arguments_fault(keys.drop_first(), arguments),
        )
    }
}

/// Where no argument is faulty, each is in order.
pub proof fn lemma_arguments_checked(
    keys: Seq<Seq<char>>,
    arguments: Map<Seq<char>, Seq<char>>,
    i: int,
)
    requires
        arguments_fault(keys, arguments) is None,
        0 <= i < keys.len(),
    ensures
        argument_fault(keys[i], arguments[keys[i]]) is None,
    decreases keys.len(),
{
    if i > 0 {
        lemma_arguments_checked(keys.drop_first(), arguments, i - 1);
        assert(keys.drop_first()[i - 1] == keys[i]);
    }
}

impl SkillView {
    /// What is wrong with the contract.
    pub open spec fn fault(self) -> Option<Refusal> {
        first_of(
            text_fault(self.invocation, MAX_SKILL_INVOCATION_BYTES, "skill invocation"@, true),
            if self.arguments.dom().len() > MAX_HARNESS_SKILL_ARGUMENTS {
                Some(
                    Refusal::Invalid(
                        "skill contract declares "@ + decimal(self.arguments.dom().len())
                            + " arguments; maximum is "@ + decimal(
                            MAX_HARNESS_SKILL_ARGUMENTS as nat,
                        ),
                    ),
                )
            } else {
                arguments_fault(sorted_keys(self.arguments.dom()), self.arguments)
            },
        )
    }

    /// The size of the contract's text.
    pub open spec fn text_bytes(self) -> nat {
        utf8_len(self.invocation) + arguments_bytes(
            sorted_keys(self.arguments.dom()),
            self.arguments,
        )
    }
}

/// The size of the named arguments and their documentation.
pub open spec fn arguments_bytes(
    keys: Seq<Seq<char>>,
    arguments: Map<Seq<char>, Seq<char>>,
) -> nat
    decreases keys.len(),
{
    if keys.len() == 0 {
        0
    } else {
        arguments_bytes(keys.drop_last(), arguments) + utf8_len(keys.last()) + utf8_len(
            arguments[keys.last()],
        )
    }
}

/// `n` as a machine number, or the greatest one.
pub open spec fn saturated(n: nat) -> usize {
    if n <= usize::MAX {
        n as usize
    } else {
        usize::MAX
    }
}

fn valid_argument_name(name: &str) -> (r: bool)
    ensures
        r == argument_name(name@),
{
    let size: usize = byte_len(name);
    if size == 0 || size > MAX_SKILL_ARGUMENT_NAME_BYTES {
        return false;
    }
    let chars = chars_of(name);
    let mut i: usize = 0;
    while i < chars.len()
        invariant
            i <= chars@.len(),
            chars@ == name@,
            forall|j: int|
                0 <= j < i ==> is_alphanumeric(#[trigger] name@[j]) || name@[j] == '_' || name@[j]
                    == '-',
        decreases chars@.len() - i,
    {
        let c = chars[i];
        if !(alphanumeric(c) || c == '_' || c == '-') {
            assert(!(is_alphanumeric(name@[i as int]) || name@[i as int] == '_' || name@[i as int]
                == '-'));
            return false;
        }
        i += 1;
    }
    true
}

impl HarnessSkillContract {
    pub fn new(invocation: &str) -> (r: HarnessSkillContract)
        ensures
            r@ == (SkillView { invocation: invocation@, arguments: Map::empty() }),
    {
        let r = HarnessSkillContract {
            invocation: invocation.to_owned(),
            arguments: TextMap::new(),
        };
        proof {
            assert(r@.arguments =~= Map::empty());
        }
        r
    }

    /// The contract with one more argument, in place of one of the same name.
    pub fn argument(self, name: &str, doc: &str) -> (r: HarnessSkillContract)
        ensures
            r@ == (SkillView {
                invocation: self@.invocation,
                arguments: self@.arguments.insert(name@, doc@),
            }),
    {
        let mut arguments = self.arguments;
        arguments.insert(name, doc.to_owned());
        let r = HarnessSkillContract { invocation: self.invocation, arguments };
        proof {
            assert(r@.arguments =~= self@.arguments.insert(name@, doc@));
        }
        r
    }

    pub fn invocation(&self) -> (r: &str)
        ensures
            r@ == self@.invocation,
    {
        self.invocation.as_str()
    }

    pub fn arguments(&self) -> (r: &TextMap<String>)
        ensures
            texts(r@) == self@.arguments,
    {
        &self.arguments
    }

    /// Checks the contract.
    #[verifier::loop_isolation(false)]
    pub fn validate(&self) -> (r: Result<(), EvolutionError>)
        ensures
            refusal(r) == self@.fault(),
    {
        match validate_text(
            self.invocation.as_str(),
            MAX_SKILL_INVOCATION_BYTES,
            "skill invocation",
            true,
        ) {
            Ok(()) => {},
            Err(e) => {
                return Err(e);
            },
        }
        let n: usize = self.arguments.len();
        let ghost keys = self.arguments.keys();
        proof {
            assert(self@.arguments.dom() =~= self.arguments@.dom());
        }
        if n > MAX_HARNESS_SKILL_ARGUMENTS {
            let mut out = "skill contract declares ".to_owned();
            push_decimal(&mut out, n as u64);
            out.append(" arguments; maximum is ");
            push_decimal(&mut out, MAX_HARNESS_SKILL_ARGUMENTS as u64);
            return Err(EvolutionError::Invalid(out));
        }
        let mut i: usize = 0;
        proof {
            assert(keys.skip(0) =~= keys);
        }
        while i < n
            invariant
                i <= n,
                n == keys.len(),
                keys == self.arguments.keys(),
                self@.arguments.dom() == self.arguments@.dom(),
                forall|k: Seq<char>| keys.contains(k) <==> #[trigger] self.arguments@.dom().contains(k),
                arguments_fault(keys, self@.arguments) == arguments_fault(
                    keys.skip(i as int),
                    self@.arguments,
                ),
            decreases n - i,
        {
            let name = self.arguments.key_at(i);
            let doc = self.arguments.value_at(i);
            proof {
                assert(keys.skip(i as int)[0] == name@);
                assert(keys.skip(i as int).drop_first() =~= keys.skip(i + 1));
                assert(self@.arguments[name@] == doc@);
            }
            if !valid_argument_name(name) {
                return Err(
                    EvolutionError::Invalid(joined3("invalid skill argument name '", name, "'")),
                );
            }
            match validate_text(
                doc.as_str(),
                MAX_SKILL_ARGUMENT_DOC_BYTES,
                "skill argument documentation",
                true,
            ) {
                Ok(()) => {},
                Err(e) => {
                    return Err(e);
                },
            }
            i += 1;
        }
        Ok(())
    }

    /// The size of the contract's text, as far as a machine number tells it.
    pub fn text_bytes(&self) -> (r: usize)
        ensures
            r == saturated(self@.text_bytes()),
    {
        let n: usize = self.arguments.len();
        let ghost keys = self.arguments.keys();
        proof {
            assert(self@.arguments.dom() =~= self.arguments@.dom());
            assert(keys.take(0) =~= Seq::empty());
        }
        let mut total: usize = byte_len(self.invocation.as_str());
        let mut i: usize = 0;
        while i < n
            invariant
                i <= n,
                n == keys.len(),
                keys == self.arguments.keys(),
                self@.arguments.dom() == self.arguments@.dom(),
                total == saturated(
                    utf8_len(self@.invocation) + arguments_bytes(
                        keys.take(i as int),
                        self@.arguments,
                    ),
                ),
            decreases n - i,
        {
            let name = self.arguments.key_at(i);
            let doc = self.arguments.value_at(i);
            proof {
                assert(keys.take(i + 1).drop_last() =~= keys.take(i as int));
                assert(keys.take(i + 1).last() == name@);
                assert(self@.arguments[name@] == doc@);
            }
            total = total.saturating_add(byte_len(name)).saturating_add(byte_len(doc.as_str()));
            i += 1;
        }
        proof {
            assert(keys.take(n as int) =~= keys);
        }
        total
    }

    /// Whether two contracts say the same.
    pub fn same(&self, other: &HarnessSkillContract) -> (r: bool)
        ensures
            r == (self@ == other@),
    {
        if !same_text(self.invocation.as_str(), other.invocation.as_str()) {
            return false;
        }
        let n: usize = self.arguments.len();
        let m: usize = other.arguments.len();
        let ghost keys = self.arguments.keys();
        let ghost theirs = other.arguments.keys();
        proof {
            assert(self@.arguments.dom() =~= self.arguments@.dom());
            assert(other@.arguments.dom() =~= other.arguments@.dom());
        }
        if n != m {
            return false;
        }
        let mut i: usize = 0;
        while i < n
            invariant
                i <= n,
                n == keys.len(),
                n == theirs.len(),
                keys == self.arguments.keys(),
                theirs == other.arguments.keys(),
                self@.arguments.dom() == self.arguments@.dom(),
                other@.arguments.dom() == other.arguments@.dom(),
                sorted_keys(self.arguments@.dom()) == keys,
                sorted_keys(other.arguments@.dom()) == theirs,
                forall|j: int| 0 <= j < i ==> #[trigger] keys[j] == theirs[j],
                forall|j: int|
                    0 <= j < i ==> self@.arguments[#[trigger] keys[j]] == other@.arguments[keys[j]],
            decreases n - i,
        {
            let name = self.arguments.key_at(i);
            let doc = self.arguments.value_at(i);
            let name2 = other.arguments.key_at(i);
            let doc2 = other.arguments.value_at(i);
            proof {
                assert(self@.arguments[name@] == doc@);
                assert(other@.arguments[name2@] == doc2@);
            }
            if !same_text(name, name2) {
                proof {
                    assert(keys[i as int] != theirs[i as int]);
                }
                return false;
            }
            if !same_text(doc.as_str(), doc2.as_str()) {
                return false;
            }
            i += 1;
        }
        proof {
            assert(keys =~= theirs);
            assert(self@.arguments.dom() =~= other@.arguments.dom());
            assert forall|k: Seq<char>| self@.arguments.dom().contains(k) implies self@.arguments[k]
                == other@.arguments[k] by {
                assert(self.arguments@.dom().contains(k));
                assert(keys.contains(k));
            }
            assert(self@.arguments =~= other@.arguments);
        }
        true
    }

    /// A second copy of the contract.
    pub fn duplicate(&self) -> (r: HarnessSkillContract)
        ensures
            r@ == self@,
    {
        let n: usize = self.arguments.len();
        let ghost keys = self.arguments.keys();
        let mut arguments: TextMap<String> = TextMap::new();
        let mut i: usize = 0;
        while i < n
            invariant
                i <= n,
                n == keys.len(),
                keys == self.arguments.keys(),
                forall|k: Seq<char>|
                    #[trigger] arguments@.dom().contains(k) <==> exists|j: int|
                        0 <= j < i && keys[j] == k,
                forall|k: Seq<char>|
                    #[trigger] arguments@.dom().contains(k) ==> self.arguments@.dom().contains(k)
                        && arguments@[k] == self.arguments@[k],
            decreases n - i,
        {
            let name = self.arguments.key_at(i);
            let doc = self.arguments.value_at(i);
            let ghost before = arguments@;
            arguments.insert(name, doc.clone());
            proof {
                assert forall|k: Seq<char>| #[trigger] arguments@.dom().contains(k) <==> exists|j: int|
                    0 <= j < i + 1 && keys[j] == k by {
                    if arguments@.dom().contains(k) {
                        if k == name@ {
                            assert(keys[i as int] == k);
                        } else {
                            assert(before.dom().contains(k));
                        }
                    }
                    if exists|j: int| 0 <= j < i + 1 && keys[j] == k {
                        let j = choose|j: int| 0 <= j < i + 1 && keys[j] == k;
                        if j < i {
                            assert(before.dom().contains(k));
                        }
                    }
                }
            }
            i += 1;
        }
        proof {
            assert(arguments@ =~= self.arguments@) by {
                assert forall|k: Seq<char>| arguments@.dom().contains(k)
                    <==> self.arguments@.dom().contains(k) by {
                    if self.arguments@.dom().contains(k) {
                        assert(keys.contains(k));
                        let j = choose|j: int| 0 <= j < keys.len() && keys[j] == k;
                        assert(0 <= j < n && keys[j] == k);
                    }
                }
            }
        }
        HarnessSkillContract { invocation: self.invocation.clone(), arguments }
    }
}

/// One versioned entry of a scope's ledger.
#[derive(Debug, PartialEq, Eq)]
pub struct HarnessEntry {
    pub id: String,
    pub kind: HarnessEntryKind,
    pub title: String,
    pub content: String,
    pub skill: Option<HarnessSkillContract>,
    pub source: String,
    pub version: u64,
    pub created_at_ms: u64,
    pub updated_at_ms: u64,
}

/// What a [`HarnessEntry`] says.
pub struct EntryView {
    pub id: Seq<char>,
    pub kind: HarnessEntryKind,
    pub title: Seq<char>,
    pub content: Seq<char>,
    pub skill: Option<SkillView>,
    pub source: Seq<char>,
    pub version: u64,
    pub created_at_ms: u64,
    pub updated_at_ms: u64,
}

/// What an optional contract says.
pub open spec fn skill_view(skill: Option<HarnessSkillContract>) -> Option<SkillView> {
    match skill {
        Some(s) => Some(s@),
        None => None,
    }
}

impl View for HarnessEntry {
    type V = EntryView;

    open spec fn view(&self) -> EntryView {
        EntryView {
            id: self.id@,
            kind: self.kind,
            title: self.title@,
            content: self.content@,
            skill: skill_view(self.skill),
            source: self.source@,
            version: self.version,
            created_at_ms: self.created_at_ms,
            updated_at_ms: self.updated_at_ms,
        }
    }
}

/// Whether a character may stand in an entry identifier.
pub open spec fn entry_id_char(c: char) -> bool {
    is_lower(c) || is_digit(c) || c == '-' || c == '_' || c == '.'
}

/// Whether a text may identify an entry.
pub open spec fn entry_id(value: Seq<char>) -> bool {
    &&& 0 < value.len()
    &&& utf8_len(value) <= MAX_HARNESS_ENTRY_ID_BYTES
    &&& is_alphanumeric(value[0])
    &&& forall|i: int| 0 <= i < value.len() ==> entry_id_char(#[trigger] value[i])
}

/// What is wrong with an entry identifier.
pub open spec fn entry_id_fault(value: Seq<char>) -> Option<Refusal> {
    if entry_id(value) {
        None
    } else {
        Some(
            Refusal::Invalid(
                "entry ID '"@ + value + "' must be 1..="@ + decimal(
                    MAX_HARNESS_ENTRY_ID_BYTES as nat,
                )
                    + " bytes of lowercase letters, digits, '-', '_' or '.' and start with a letter or digit"@,
            ),
        )
    }
}

/// What is wrong with the pairing of an entry's kind and its contract.
pub open spec fn skill_fault(skill: Option<SkillView>, kind: HarnessEntryKind) -> Option<Refusal> {
    match skill {
        Some(contract) => if kind is Skill {
            contract.fault()
        } else {
            Some(Refusal::Invalid("a "@ + kind.name() + " entry must not carry a skill contract"@))
        },
        None => if kind is Skill {
            Some(Refusal::Invalid("a skill entry requires a skill contract"@))
        } else {
            None
        },
    }
}

impl EntryView {
    /// What is wrong with the entry.
    pub open spec fn fault(self) -> Option<Refusal> {
        first_of(
            entry_id_fault(self.id),
            first_of(
                text_fault(self.title, MAX_HARNESS_ENTRY_TITLE_BYTES, "entry title"@, true),
                first_of(
                    text_fault(
                        self.content,
                        MAX_HARNESS_ENTRY_CONTENT_BYTES,
                        "entry content"@,
                        true,
                    ),
                    first_of(
                        text_fault(self.source, MAX_ENTRY_SOURCE_BYTES, "entry source"@, true),
                        first_of(
                            skill_fault(self.skill, self.kind),
                            if self.version == 0 {
                                Some(Refusal::Invalid("entry versions start at 1"@))
                            } else if self.updated_at_ms < self.created_at_ms {
                                Some(
                                    Refusal::Invalid(
                                        "entry update time precedes its creation time"@,
                                    ),
                                )
                            } else {
                                None
                            },
                        ),
                    ),
                ),
            ),
        )
    }

    /// The size of the entry's text.
    pub open spec fn text_bytes(self) -> nat {
        utf8_len(self.title) + utf8_len(self.content) + match self.skill {
            Some(skill) => skill.text_bytes(),
            None => 0,
        }
    }
}

/// Checks an entry identifier.
pub fn validate_entry_id(value: &str) -> (r: Result<(), EvolutionError>)
    ensures
        refusal(r) == entry_id_fault(value@),
{
    if valid_entry_id(value) {
        return Ok(());
    }
    let mut out = joined3("entry ID '", value, "' must be 1..=");
    push_decimal(&mut out, MAX_HARNESS_ENTRY_ID_BYTES as u64);
    out.append(
        " bytes of lowercase letters, digits, '-', '_' or '.' and start with a letter or digit",
    );
    Err(EvolutionError::Invalid(out))
}

/// Whether a text may identify an entry.
pub fn valid_entry_id(value: &str) -> (r: bool)
    ensures
        r == entry_id(value@),
{
    let chars = chars_of(value);
    if chars.len() == 0 || byte_len(value) > MAX_HARNESS_ENTRY_ID_BYTES || !alphanumeric(chars[0]) {
        return false;
    }
    let mut i: usize = 0;
    while i < chars.len()
        invariant
            i <= chars@.len(),
            chars@ == value@,
            forall|j: int| 0 <= j < i ==> entry_id_char(#[trigger] value@[j]),
        decreases chars@.len() - i,
    {
        let c = chars[i];
        if !(lower(c) || digit(c) || c == '-' || c == '_' || c == '.') {
            assert(!entry_id_char(value@[i as int]));
            return false;
        }
        i += 1;
    }
    true
}

/// The identifier spelled by a title, from position `at` on: small letters and digits, with
/// one hyphen for whatever stands between them, up to the greatest length.
pub open spec fn slug(title: Seq<char>, at: int, made: Seq<char>, gap: bool) -> Seq<char>
    decreases title.len() - at,
{
    if at < 0 || at >= title.len() {
        made
    } else {
        let now = if is_alphanumeric(title[at]) {
            (if gap && made.len() > 0 {
                made.push('-')
            } else {
                made
            }).push(crate::text::ascii_lower(title[at]))
        } else {
            made
        };
        if now.len() >= MAX_HARNESS_ENTRY_ID_BYTES {
            now
        } else {
            slug(title, at + 1, now, !is_alphanumeric(title[at]))
        }
    }
}

/// The identifier that a title spells, when it spells one.
pub open spec fn derived_id(title: Seq<char>) -> Result<Seq<char>, Refusal> {
    let made = slug(title, 0, Seq::empty(), false);
    if entry_id(made) {
        Ok(made)
    } else {
        Err(Refusal::Invalid("cannot derive an entry ID from title '"@ + title + "'"@))
    }
}

/// Derives an entry identifier from a title.
pub fn derive_entry_id(title: &str) -> (r: Result<String, EvolutionError>)
    ensures
        match r {
            Ok(id) => derived_id(title@) == Ok::<Seq<char>, Refusal>(id@),
            Err(e) => derived_id(title@) == Err::<Seq<char>, Refusal>(e@),
        },
{
    let chars = chars_of(title);
    let mut made: Vec<char> = Vec::new();
    let mut gap: bool = false;
    let mut i: usize = 0;
    let mut open: bool = true;
    while open && i < chars.len()
        invariant
            i <= chars@.len(),
            chars@ == title@,
            open ==> slug(title@, 0, Seq::empty(), false) == slug(title@, i as int, made@, gap),
            !open ==> slug(title@, 0, Seq::empty(), false) == made@,
        decreases chars@.len() - i + (if open { 1int } else { 0 }),
    {
        let c = chars[i];
        if alphanumeric(c) {
            if gap && made.len() > 0 {
                made.push('-');
            }
            gap = false;
            made.push(to_lower(c));
        } else {
            gap = true;
        }
        if made.len() >= MAX_HARNESS_ENTRY_ID_BYTES {
            open = false;
        } else {
            i += 1;
        }
    }
    let id = text_of(&made, 0, made.len());
    proof {
        assert(made@.subrange(0, made@.len() as int) =~= made@);
    }
    if valid_entry_id(id.as_str()) {
        Ok(id)
    } else {
        Err(EvolutionError::Invalid(joined3("cannot derive an entry ID from title '", title, "'")))
    }
}

impl HarnessEntry {
    pub fn id(&self) -> (r: &str)
        ensures
            r@ == self@.id,
    {
        self.id.as_str()
    }

    pub fn kind(&self) -> (r: HarnessEntryKind)
        ensures
            r == self@.kind,
    {
        self.kind
    }

    pub fn title(&self) -> (r: &str)
        ensures
            r@ == self@.title,
    {
        self.title.as_str()
    }

    pub fn content(&self) -> (r: &str)
        ensures
            r@ == self@.content,
    {
        self.content.as_str()
    }

    pub fn skill(&self) -> (r: Option<&HarnessSkillContract>)
        ensures
            match r {
                Some(s) => self@.skill == Some(s@),
                None => self@.skill is None,
            },
    {
        self.skill.as_ref()
    }

    pub fn source(&self) -> (r: &str)
        ensures
            r@ == self@.source,
    {
        self.source.as_str()
    }

    pub fn version(&self) -> (r: u64)
        ensures
            r == self@.version,
    {
        self.version
    }

    pub fn created_at_ms(&self) -> (r: u64)
        ensures
            r == self@.created_at_ms,
    {
        self.created_at_ms
    }

    pub fn updated_at_ms(&self) -> (r: u64)
        ensures
            r == self@.updated_at_ms,
    {
        self.updated_at_ms
    }

    /// The size of the entry's text, as far as a machine number tells it.
    pub fn text_bytes(&self) -> (r: usize)
        ensures
            r == saturated(self@.text_bytes()),
    {
        let own: usize = byte_len(self.title.as_str()).saturating_add(
            byte_len(self.content.as_str()),
        );
        match &self.skill {
            Some(skill) => own.saturating_add(skill.text_bytes()),
            None => own,
        }
    }

    /// Checks the entry.
    pub fn validate(&self) -> (r: Result<(), EvolutionError>)
        ensures
            refusal(r) == self@.fault(),
    {
        validate_entry_id(self.id.as_str())?;
        validate_text(self.title.as_str(), MAX_HARNESS_ENTRY_TITLE_BYTES, "entry title", true)?;
        validate_text(
            self.content.as_str(),
            MAX_HARNESS_ENTRY_CONTENT_BYTES,
            "entry content",
            true,
        )?;
        validate_text(self.source.as_str(), MAX_ENTRY_SOURCE_BYTES, "entry source", true)?;
        match &self.skill {
            Some(contract) => {
                if self.kind == HarnessEntryKind::Skill {
                    contract.validate()?;
                } else {
                    return Err(
                        EvolutionError::Invalid(
                            joined3(
                                "a ",
                                self.kind.as_str(),
                                " entry must not carry a skill contract",
                            ),
                        ),
                    );
                }
            },
            None => {
                if self.kind == HarnessEntryKind::Skill {
                    return Err(invalid("a skill entry requires a skill contract"));
                }
            },
        }
        if self.version == 0 {
            return Err(invalid("entry versions start at 1"));
        }
        if self.updated_at_ms < self.created_at_ms {
            return Err(invalid("entry update time precedes its creation time"));
        }
        Ok(())
    }

    /// Whether two entries say the same.
    pub fn same(&self, other: &HarnessEntry) -> (r: bool)
        ensures
            r == (self@ == other@),
    {
        let skills = match (&self.skill, &other.skill) {
            (None, None) => true,
            (Some(a), Some(b)) => a.same(b),
            _ => false,
        };
        skills && same_text(self.id.as_str(), other.id.as_str()) && self.kind == other.kind
            && same_text(self.title.as_str(), other.title.as_str()) && same_text(
            self.content.as_str(),
            other.content.as_str(),
        ) && same_text(self.source.as_str(), other.source.as_str()) && self.version == other.version
            && self.created_at_ms == other.created_at_ms && self.updated_at_ms
            == other.updated_at_ms
    }

    /// A second copy of the entry.
    pub fn duplicate(&self) -> (r: HarnessEntry)
        ensures
            r@ == self@,
    {
        HarnessEntry {
            id: self.id.clone(),
            kind: self.kind,
            title: self.title.clone(),
            content: self.content.clone(),
            skill: duplicate_skill(&self.skill),
            source: self.source.clone(),
            version: self.version,
            created_at_ms: self.created_at_ms,
            updated_at_ms: self.updated_at_ms,
        }
    }
}

/// A second copy of an optional contract.
pub fn duplicate_skill(skill: &Option<HarnessSkillContract>) -> (r: Option<HarnessSkillContract>)
    ensures
        skill_view(r) == skill_view(*skill),
{
    match skill {
        Some(s) => Some(s.duplicate()),
        None => None,
    }
}

proof fn lemma_slug_one_more(title: Seq<char>, c: char, at: int, made: Seq<char>, gap: bool)
    requires
        0 <= at <= title.len(),
        slug(title, at, made, gap).len() < MAX_HARNESS_ENTRY_ID_BYTES,
    ensures
        ({
            let was = slug(title, at, made, gap);
            let open = if at == title.len() {
                gap
            } else {
                !is_alphanumeric(title.last())
            };
            slug(title.push(c), at, made, gap) == if !is_alphanumeric(c) {
                was
            } else if open && was.len() > 0 {
                was.push('-').push(crate::text::ascii_lower(c))
            } else {
                was.push(crate::text::ascii_lower(c))
            }
        }),
    decreases title.len() - at,
{
    let longer = title.push(c);
    if at == title.len() {
        reveal_with_fuel(slug, 2);
    } else {
        let now = if is_alphanumeric(title[at]) {
            (if gap && made.len() > 0 {
                made.push('-')
            } else {
                made
            }).push(crate::text::ascii_lower(title[at]))
        } else {
            made
        };
        let next = !is_alphanumeric(title[at]);
        assert(longer[at] == title[at]);
        assert(now.len() < MAX_HARNESS_ENTRY_ID_BYTES);
        assert(slug(title, at, made, gap) == slug(title, at + 1, now, next));
        assert(slug(longer, at, made, gap) == slug(longer, at + 1, now, next));
        lemma_slug_one_more(title, c, at + 1, now, next);
    }
}

/// How a title spells an identifier, character by character, as long as there is room: a letter or
/// digit adds its small form, behind a hyphen where something else stands between it and what was
/// spelled before; anything else adds nothing.
pub proof fn law_titles_spell_identifiers(title: Seq<char>, c: char)
    requires
        slug(title, 0, Seq::empty(), false).len() < MAX_HARNESS_ENTRY_ID_BYTES,
    ensures
        ({
            let was = slug(title, 0, Seq::empty(), false);
            let is = slug(title.push(c), 0, Seq::empty(), false);
            &&& slug(Seq::empty(), 0, Seq::empty(), false).len() == 0
            &&& !is_alphanumeric(c) ==> is == was
            &&& is_alphanumeric(c) && was.len() == 0 ==> is == seq![crate::text::ascii_lower(c)]
            &&& is_alphanumeric(c) && was.len() > 0 && is_alphanumeric(title.last()) ==> is
                == was.push(crate::text::ascii_lower(c))
            &&& is_alphanumeric(c) && was.len() > 0 && !is_alphanumeric(title.last()) ==> is
                == was.push('-').push(crate::text::ascii_lower(c))
        }),
{
    lemma_slug_one_more(title, c, 0, Seq::empty(), false);
    let was = slug(title, 0, Seq::empty(), false);
    if was.len() == 0 {
        assert(was =~= Seq::empty());
        assert(was.push(crate::text::ascii_lower(c)) =~= seq![crate::text::ascii_lower(c)]);
    }
}

/// An entry of the skill kind, and no other, carries a skill contract.
pub proof fn law_skills_alone_carry_contracts(entry: EntryView)
    requires
        entry.fault() is None,
    ensures
        entry.skill is Some <==> entry.kind is Skill,
        entry.version >= 1,
        entry.created_at_ms <= entry.updated_at_ms,
        entry_id(entry.id),
{
}

/// An identifier that is derived of a title is the one that the title spells, and can identify an
/// entry; none is derived exactly where the title spells no such identifier.
pub proof fn law_derived_identifiers_are_spelled(title: Seq<char>)
    ensures
        derived_id(title) matches Ok(id) ==> id == slug(title, 0, Seq::empty(), false) && entry_id(
            id,
        ),
        derived_id(title) is Err <==> !entry_id(slug(title, 0, Seq::empty(), false)),
{
}

} // verus!
