//! A small persistent kernel that speaks the line protocol: it keeps state across fragments,
//! writes down the part that it declares restorable, and declares the part that it cannot.

use crate::digest::text_views;
use crate::kernel::snapshot::CHECKPOINT_HEADER;
use crate::kernel::two;
use crate::program::ProgramStream;
use crate::text::{
    char_from, decimal, head_of, lemma_char_absent, lemma_char_at, lemma_char_from,
    lemma_first_line, lines_of, parse_i32, parse_u64, parsed_i32, parsed_u64, push_decimal, rest_of,
    same_text, split_head, starts_with, strip_prefix,
};
use crate::text_map::{lists_in_order, sorted_keys, TextMap};
use vstd::prelude::*;

verus! {

/// The mark of a frame.
pub const MARK: &'static str = "\x1e\x1e";

/// How a directive ended.
#[derive(Debug, PartialEq, Eq)]
pub enum FixtureStatus {
    Done,
    Raised(String),
    Cancelled,
    Rejected(String),
}

/// What a [`FixtureStatus`] says.
pub enum FixtureEnd {
    Done,
    Raised(Seq<char>),
    Cancelled,
    Rejected(Seq<char>),
}

impl View for FixtureStatus {
    type V = FixtureEnd;

    open spec fn view(&self) -> FixtureEnd {
        match self {
            FixtureStatus::Done => FixtureEnd::Done,
            FixtureStatus::Raised(class) => FixtureEnd::Raised(class@),
            FixtureStatus::Cancelled => FixtureEnd::Cancelled,
            FixtureStatus::Rejected(reason) => FixtureEnd::Rejected(reason@),
        }
    }
}

impl FixtureEnd {
    pub open spec fn token(self) -> Seq<char> {
        match self {
            FixtureEnd::Done => "ok"@,
            FixtureEnd::Raised(class) => "raised "@ + class,
            FixtureEnd::Cancelled => "cancelled"@,
            FixtureEnd::Rejected(reason) => "rejected "@ + reason,
        }
    }
}

impl FixtureStatus {
    pub fn token(&self) -> (r: String)
        ensures
            r@ == self@.token(),
    {
        match self {
            FixtureStatus::Done => "ok".to_owned(),
            FixtureStatus::Raised(class) => two("raised ", class.as_str()),
            FixtureStatus::Cancelled => "cancelled".to_owned(),
            FixtureStatus::Rejected(reason) => two("rejected ", reason.as_str()),
        }
    }
}

/// The frame that ends a directive.
pub fn frame(status: &FixtureStatus) -> (r: String)
    ensures
        r@ == MARK@ + "done "@ + status@.token() + "\n"@,
{
    let mut out = MARK.to_owned();
    out.append("done ");
    out.append(status.token().as_str());
    out.append("\n");
    out
}

/// What a line on the kernel's input asks for.
#[derive(Debug, PartialEq, Eq)]
pub enum Directive {
    Exec,
    Checkpoint,
    Restore,
    Close,
    /// A directive that is not known.
    Unknown(String),
    /// A line outside any frame.
    Unframed,
}

/// Reads a line of the kernel's input.
pub fn directive(line: &str) -> (r: Directive)
    ensures
        if !starts_with(line@, MARK@) {
            r is Unframed
        } else {
            let name = line@.skip(MARK@.len() as int);
            if name == "exec"@ {
                r is Exec
            } else if name == "checkpoint"@ {
                r is Checkpoint
            } else if name == "restore"@ {
                r is Restore
            } else if name == "close"@ {
                r is Close
            } else {
                r matches Directive::Unknown(n) && n@ == name
            }
        },
{
    match strip_prefix(line, MARK) {
        None => Directive::Unframed,
        Some(name) => if same_text(name.as_str(), "exec") {
            Directive::Exec
        } else if same_text(name.as_str(), "checkpoint") {
            Directive::Checkpoint
        } else if same_text(name.as_str(), "restore") {
            Directive::Restore
        } else if same_text(name.as_str(), "close") {
            Directive::Close
        } else {
            Directive::Unknown(name)
        },
    }
}

/// How an unusable line is answered.
pub fn refuse_directive(directive: &Directive) -> (r: FixtureStatus)
    ensures
        r@ == FixtureEnd::Rejected(
            match *directive {
                Directive::Unknown(name) => "unknown-directive-"@ + name@,
                _ => "unframed-input"@,
            },
        ),
{
    match directive {
        Directive::Unknown(name) => FixtureStatus::Rejected(
            two("unknown-directive-", name.as_str()),
        ),
        _ => FixtureStatus::Rejected("unframed-input".to_owned()),
    }
}

/// Whether a line ends the body of a directive.
pub fn ends_body(line: &str) -> (r: bool)
    ensures
        r == (line@ == MARK@ + "end"@),
{
    let end = two(MARK, "end");
    same_text(line, end.as_str())
}

/// The state that the kernel keeps across fragments.
pub struct FixtureState {
    bindings: TextMap<String>,
    modules: TextMap<bool>,
    /// Values that the kernel holds and cannot write down, by kind.
    unserialisable: TextMap<Vec<String>>,
    open_files: u64,
}

/// What a [`FixtureState`] says.
pub struct StateView {
    pub bindings: Map<Seq<char>, Seq<char>>,
    pub modules: Set<Seq<char>>,
    /// The values that cannot be written down, by kind.
    pub unserialisable: Map<Seq<char>, Seq<Seq<char>>>,
    pub open_files: u64,
}

impl View for FixtureState {
    type V = StateView;

    closed spec fn view(&self) -> StateView {
        StateView {
            bindings: self.bindings@.map_values(|v: String| v@),
            modules: self.modules@.dom(),
            unserialisable: self.unserialisable@.map_values(|v: Vec<String>| text_views(v@)),
            open_files: self.open_files,
        }
    }
}

/// What a command has the kernel do besides changing its state.
#[derive(Debug, PartialEq, Eq)]
pub enum FixtureStep {
    Nothing,
    Write(ProgramStream, String),
    /// Sleep for so many milliseconds, unless interrupted.
    Sleep(u64),
    /// Write so many bytes.
    Emit(ProgramStream, u64),
    /// Open a file with this name under the working root and keep it open.
    HoldFile(String),
    Raise(String),
    /// End the process with this status.
    Die(i32),
}

/// What a [`FixtureStep`] says.
pub enum StepView {
    Nothing,
    Write(ProgramStream, Seq<char>),
    Sleep(u64),
    Emit(ProgramStream, u64),
    HoldFile(Seq<char>),
    Raise(Seq<char>),
    Die(i32),
}

impl View for FixtureStep {
    type V = StepView;

    open spec fn view(&self) -> StepView {
        match self {
            FixtureStep::Nothing => StepView::Nothing,
            FixtureStep::Write(stream, text) => StepView::Write(*stream, text@),
            FixtureStep::Sleep(ms) => StepView::Sleep(*ms),
            FixtureStep::Emit(stream, count) => StepView::Emit(*stream, *count),
            FixtureStep::HoldFile(name) => StepView::HoldFile(name@),
            FixtureStep::Raise(class) => StepView::Raise(class@),
            FixtureStep::Die(code) => StepView::Die(*code),
        }
    }
}

/// The binding of a key, or nothing.
pub open spec fn bound_value(bindings: Map<Seq<char>, Seq<char>>, key: Seq<char>) -> Seq<char> {
    if bindings.dom().contains(key) {
        bindings[key]
    } else {
        Seq::empty()
    }
}

/// A number, or zero when the text is none.
pub open spec fn number_or_zero(text: Seq<char>) -> u64 {
    match parsed_u64(text) {
        Some(n) => n,
        None => 0,
    }
}

/// What a line of a fragment does to the state, and what else it asks for.
pub open spec fn command_effect(state: StateView, line: Seq<char>) -> (StateView, StepView) {
    let command = head_of(line);
    let rest = rest_of(line);
    if command == ""@ {
        (state, StepView::Nothing)
    } else if command == "set"@ {
        (
            StateView { bindings: state.bindings.insert(head_of(rest), rest_of(rest)), ..state },
            StepView::Nothing,
        )
    } else if command == "get"@ {
        (
            state,
            StepView::Write(
                ProgramStream::Stdout,
                rest + "="@ + bound_value(state.bindings, rest) + "\n"@,
            ),
        )
    } else if command == "echo"@ {
        (state, StepView::Write(ProgramStream::Stdout, rest + "\n"@))
    } else if command == "warn"@ {
        (state, StepView::Write(ProgramStream::Stderr, rest + "\n"@))
    } else if command == "sleep"@ {
        (state, StepView::Sleep(number_or_zero(rest)))
    } else if command == "emit"@ {
        (state, StepView::Emit(ProgramStream::Stdout, number_or_zero(rest)))
    } else if command == "emit-err"@ {
        (state, StepView::Emit(ProgramStream::Stderr, number_or_zero(rest)))
    } else if command == "load"@ {
        (StateView { modules: state.modules.insert(rest), ..state }, StepView::Nothing)
    } else if command == "hold-file"@ {
        (
            state,
            StepView::HoldFile(
                "kernel-fixture-"@ + decimal(state.open_files as nat) + ".hold"@,
            ),
        )
    } else if command == "unserialisable"@ {
        let kind = head_of(rest);
        let held = if state.unserialisable.dom().contains(kind) {
            state.unserialisable[kind]
        } else {
            Seq::empty()
        };
        (
            StateView {
                unserialisable: state.unserialisable.insert(kind, held.push(rest_of(rest))),
                ..state
            },
            StepView::Nothing,
        )
    } else if command == "raise"@ {
        (state, StepView::Raise(rest))
    } else if command == "die"@ {
        (
            state,
            StepView::Die(
                match parsed_i32(rest) {
                    Some(code) => code,
                    None => 0,
                },
            ),
        )
    } else {
        (state, StepView::Raise("unknown-command-"@ + command))
    }
}

/// The lines that write bindings down.
pub open spec fn binding_lines(keys: Seq<Seq<char>>, bindings: Map<Seq<char>, Seq<char>>) -> Seq<
    Seq<char>,
> {
    Seq::new(keys.len(), |i: int| "bind "@ + keys[i] + " "@ + bindings[keys[i]])
}

/// The lines that write modules down.
pub open spec fn module_lines(names: Seq<Seq<char>>) -> Seq<Seq<char>> {
    Seq::new(names.len(), |i: int| "module "@ + names[i])
}

/// The lines that declare values lost.
pub open spec fn lost_lines(
    kinds: Seq<Seq<char>>,
    values: Map<Seq<char>, Seq<Seq<char>>>,
) -> Seq<Seq<char>> {
    Seq::new(
        kinds.len(),
        |i: int|
            "lost unserialisable_value "@ + kinds[i] + " "@ + decimal(values[kinds[i]].len()),
    )
}

/// The lines of a snapshot: every binding and module, and a declaration of what it does not carry.
pub open spec fn snapshot_lines(state: StateView) -> Seq<Seq<char>> {
    seq![CHECKPOINT_HEADER@] + binding_lines(sorted_keys(state.bindings.dom()), state.bindings)
        + module_lines(sorted_keys(state.modules)) + (if state.open_files > 0 {
        seq!["lost open_file "@ + decimal(state.open_files as nat)]
    } else {
        Seq::empty()
    }) + lost_lines(sorted_keys(state.unserialisable.dom()), state.unserialisable)
}

/// Lines with their ends.
pub open spec fn ended(lines: Seq<Seq<char>>) -> Seq<char>
    decreases lines.len(),
{
    if lines.len() == 0 {
        Seq::empty()
    } else {
        ended(lines.drop_last()) + lines.last() + "\n"@
    }
}

/// What a restore makes of a body: the bindings and modules, or nothing when the body is no
/// snapshot. What was declared lost stays lost.
pub open spec fn restored_lines(lines: Seq<Seq<char>>) -> Option<
    (Map<Seq<char>, Seq<char>>, Set<Seq<char>>),
>
    decreases lines.len(),
{
    if lines.len() == 0 {
        Some((Map::empty(), Set::empty()))
    } else {
        match restored_lines(lines.drop_last()) {
            None => None,
            Some((bindings, modules)) => {
                let word = head_of(lines.last());
                let rest = rest_of(lines.last());
                if word == "bind"@ {
                    Some((bindings.insert(head_of(rest), rest_of(rest)), modules))
                } else if word == "module"@ {
                    Some((bindings, modules.insert(rest)))
                } else if word == "lost"@ || word == ""@ {
                    Some((bindings, modules))
                } else {
                    None
                }
            },
        }
    }
}

/// What a restore makes of a body.
pub open spec fn restored(body: Seq<Seq<char>>) -> Option<
    (Map<Seq<char>, Seq<char>>, Set<Seq<char>>),
> {
    if body.len() == 0 || body[0] != CHECKPOINT_HEADER@ {
        None
    } else {
        restored_lines(body.drop_first())
    }
}

impl FixtureState {
    /// A kernel that has done nothing.
    pub fn new() -> (r: FixtureState)
        ensures
            r@ == (StateView {
                bindings: Map::empty(),
                modules: Set::empty(),
                unserialisable: Map::empty(),
                open_files: 0,
            }),
    {
        let r = FixtureState {
            bindings: TextMap::new(),
            modules: TextMap::new(),
            unserialisable: TextMap::new(),
            open_files: 0,
        };
        proof {
            assert(r@.bindings =~= Map::<Seq<char>, Seq<char>>::empty());
            assert(r@.modules =~= Set::<Seq<char>>::empty());
            assert(r@.unserialisable =~= Map::<Seq<char>, Seq<Seq<char>>>::empty());
        }
        r
    }

    /// Runs one line of a fragment.
    pub fn command(&mut self, line: &str) -> (r: FixtureStep)
        ensures
            (final(self)@, r@) == command_effect(old(self)@, line@),
    {
        proof {
            reveal_strlit("");
        }
        let (command, rest) = split_head(line);
        let name = command.as_str();
        if same_text(name, "") {
            return FixtureStep::Nothing;
        }
        if same_text(name, "set") {
            let (key, value) = split_head(rest.as_str());
            let ghost before = self@.bindings;
            self.bindings.insert(key.as_str(), value);
            proof {
                assert(self@.bindings =~= before.insert(key@, value@));
            }
            return FixtureStep::Nothing;
        }
        if same_text(name, "get") {
            let mut text = two(rest.as_str(), "=");
            let ghost head = text@;
            match self.bindings.get(rest.as_str()) {
                Some(value) => text.append(value.as_str()),
                None => {
                    proof {
                        assert(head + Seq::<char>::empty() =~= head);
                    }
                },
            }
            text.append("\n");
            return FixtureStep::Write(ProgramStream::Stdout, text);
        }
        if same_text(name, "echo") {
            return FixtureStep::Write(ProgramStream::Stdout, two(rest.as_str(), "\n"));
        }
        if same_text(name, "warn") {
            return FixtureStep::Write(ProgramStream::Stderr, two(rest.as_str(), "\n"));
        }
        if same_text(name, "sleep") {
            return FixtureStep::Sleep(number(rest.as_str()));
        }
        if same_text(name, "emit") {
            return FixtureStep::Emit(ProgramStream::Stdout, number(rest.as_str()));
        }
        if same_text(name, "emit-err") {
            return FixtureStep::Emit(ProgramStream::Stderr, number(rest.as_str()));
        }
        if same_text(name, "load") {
            let ghost before = self@.modules;
            self.modules.insert(rest.as_str(), true);
            proof {
                assert(self@.modules =~= before.insert(rest@));
            }
            return FixtureStep::Nothing;
        }
        if same_text(name, "hold-file") {
            let mut file = "kernel-fixture-".to_owned();
            push_decimal(&mut file, self.open_files);
            file.append(".hold");
            return FixtureStep::HoldFile(file);
        }
        if same_text(name, "unserialisable") {
            let (kind, value) = split_head(rest.as_str());
            let mut values: Vec<String> = Vec::new();
            assert(text_views(values@) =~= Seq::empty());
            if let Some(held) = self.unserialisable.get(kind.as_str()) {
                let mut i: usize = 0;
                while i < held.len()
                    invariant
                        i <= held@.len(),
                        text_views(values@) == text_views(held@).take(i as int),
                    decreases held@.len() - i,
                {
                    let ghost before = text_views(values@);
                    values.push(held[i].clone());
                    proof {
                        assert(text_views(values@) =~= before.push(held@[i as int]@));
                        assert(text_views(held@).take(i + 1) =~= text_views(held@).take(
                            i as int,
                        ).push(held@[i as int]@));
                    }
                    i += 1;
                }
                assert(text_views(held@).take(held@.len() as int) =~= text_views(held@));
            }
            let ghost kept = text_views(values@);
            values.push(value);
            let ghost before = self@.unserialisable;
            let ghost all = text_views(values@);
            self.unserialisable.insert(kind.as_str(), values);
            proof {
                assert(all =~= kept.push(value@));
                assert(self@.unserialisable =~= before.insert(kind@, all));
            }
            return FixtureStep::Nothing;
        }
        if same_text(name, "raise") {
            return FixtureStep::Raise(rest);
        }
        if same_text(name, "die") {
            return FixtureStep::Die(
                match parse_i32(rest.as_str()) {
                    Some(code) => code,
                    None => 0,
                },
            );
        }
        FixtureStep::Raise(two("unknown-command-", name))
    }

    /// Counts a file that was opened.
    pub fn hold_file(&mut self)
        requires
            old(self)@.open_files < u64::MAX,
        ensures
            final(self)@ == (StateView {
                open_files: (old(self)@.open_files + 1) as u64,
                ..old(self)@
            }),
    {
        self.open_files = self.open_files + 1;
    }

    /// Writes down what can be written down, and declares the rest.
    pub fn snapshot(&self) -> (r: String)
        ensures
            r@ == ended(snapshot_lines(self@)),
            lists_in_order(sorted_keys(self@.bindings.dom()), self@.bindings.dom()),
            lists_in_order(sorted_keys(self@.modules), self@.modules),
            lists_in_order(
                sorted_keys(self@.unserialisable.dom()),
                self@.unserialisable.dom(),
            ),
    {
        let ghost view = self@;
        proof {
            assert(view.bindings.dom() =~= self.bindings@.dom());
            assert(view.unserialisable.dom() =~= self.unserialisable@.dom());
        }
        let ghost keys = sorted_keys(view.bindings.dom());
        let ghost names = sorted_keys(view.modules);
        let ghost kinds = sorted_keys(view.unserialisable.dom());
        let ghost head = seq![CHECKPOINT_HEADER@];
        let mut out = two(CHECKPOINT_HEADER, "\n");
        proof {
            assert(head.drop_last() =~= Seq::empty());
            assert(ended(head.drop_last()) =~= Seq::<char>::empty());
            assert(out@ =~= ended(head));
        }
        let count: usize = self.bindings.len();
        let mut i: usize = 0;
        let ghost bound = binding_lines(keys, view.bindings);
        proof {
            assert(head + bound.take(0) =~= head);
        }
        while i < count
            invariant
                i <= count,
                count == keys.len(),
                keys == self.bindings.keys(),
                bound == binding_lines(keys, view.bindings),
                view == self@,
                view.bindings.dom() == self.bindings@.dom(),
                out@ == ended(head + bound.take(i as int)),
            decreases count - i,
        {
            let key = self.bindings.key_at(i);
            let value = self.bindings.value_at(i);
            let ghost before = out@;
            out.append("bind ");
            out.append(key);
            out.append(" ");
            out.append(value.as_str());
            out.append("\n");
            proof {
                assert(view.bindings[key@] == value@);
                let line = bound[i as int];
                assert(line == "bind "@ + key@ + " "@ + value@);
                lemma_ended(head + bound.take(i as int), line);
                assert(head + bound.take(i + 1) =~= (head + bound.take(i as int)).push(line));
                assert(out@ =~= before + line + "\n"@);
            }
            i += 1;
        }
        let ghost second = head + bound;
        proof {
            assert(bound.take(bound.len() as int) =~= bound);
        }
        let count: usize = self.modules.len();
        let mut i: usize = 0;
        let ghost loaded = module_lines(names);
        proof {
            assert(second + loaded.take(0) =~= second);
        }
        while i < count
            invariant
                i <= count,
                count == names.len(),
                names == self.modules.keys(),
                loaded == module_lines(names),
                out@ == ended(second + loaded.take(i as int)),
            decreases count - i,
        {
            let ghost before = out@;
            let name = self.modules.key_at(i);
            out.append("module ");
            out.append(name);
            out.append("\n");
            proof {
                let line = loaded[i as int];
                assert(line == "module "@ + name@);
                lemma_ended(second + loaded.take(i as int), line);
                assert(second + loaded.take(i + 1) =~= (second + loaded.take(i as int)).push(line));
                assert(out@ =~= before + line + "\n"@);
            }
            i += 1;
        }
        let ghost third = second + loaded;
        proof {
            assert(loaded.take(loaded.len() as int) =~= loaded);
        }
        let ghost files = if view.open_files > 0 {
            seq!["lost open_file "@ + decimal(view.open_files as nat)]
        } else {
            Seq::empty()
        };
        if self.open_files > 0 {
            let ghost before = out@;
            out.append("lost open_file ");
            push_decimal(&mut out, self.open_files);
            out.append("\n");
            proof {
                let line = "lost open_file "@ + decimal(view.open_files as nat);
                lemma_ended(third, line);
                assert(third + files =~= third.push(line));
                assert(out@ =~= before + line + "\n"@);
            }
        } else {
            proof {
                assert(third + files =~= third);
            }
        }
        let ghost fourth = third + files;
        let count: usize = self.unserialisable.len();
        let mut i: usize = 0;
        let ghost lost = lost_lines(kinds, view.unserialisable);
        proof {
            assert(fourth + lost.take(0) =~= fourth);
        }
        while i < count
            invariant
                i <= count,
                count == kinds.len(),
                kinds == self.unserialisable.keys(),
                lost == lost_lines(kinds, view.unserialisable),
                view == self@,
                view.unserialisable.dom() == self.unserialisable@.dom(),
                out@ == ended(fourth + lost.take(i as int)),
            decreases count - i,
        {
            let ghost before = out@;
            let kind = self.unserialisable.key_at(i);
            let values = self.unserialisable.value_at(i);
            out.append("lost unserialisable_value ");
            out.append(kind);
            out.append(" ");
            push_decimal(&mut out, values.len() as u64);
            out.append("\n");
            proof {
                assert(view.unserialisable[kind@].len() == values@.len());
                let line = lost[i as int];
                assert(line == "lost unserialisable_value "@ + kind@ + " "@ + decimal(
                    values@.len(),
                ));
                lemma_ended(fourth + lost.take(i as int), line);
                assert(fourth + lost.take(i + 1) =~= (fourth + lost.take(i as int)).push(line));
                assert(out@ =~= before + line + "\n"@);
            }
            i += 1;
        }
        proof {
            assert(lost.take(lost.len() as int) =~= lost);
            assert(fourth + lost =~= snapshot_lines(view));
        }
        out
    }

    /// Takes the state of a snapshot in place of its own, or refuses it and keeps its own.
    #[verifier::loop_isolation(false)]
    pub fn restore(&mut self, body: &Vec<String>) -> (r: FixtureStatus)
        ensures
            match restored(text_views(body@)) {
                None => r@ == FixtureEnd::Rejected("malformed-payload"@) && final(self)@ == old(
                    self)@,
                Some((bindings, modules)) => r@ == FixtureEnd::Done && final(self)@ == (StateView {
                    bindings,
                    modules,
                    unserialisable: Map::empty(),
                    open_files: 0,
                }),
            },
    {
        let ghost all = text_views(body@);
        if body.len() == 0 || !same_text(body[0].as_str(), CHECKPOINT_HEADER) {
            proof {
                if all.len() > 0 {
                    assert(all[0] == body@[0]@);
                }
            }
            return FixtureStatus::Rejected("malformed-payload".to_owned());
        }
        let mut next = FixtureState::new();
        let ghost lines = all.drop_first();
        let mut i: usize = 1;
        proof {
            assert(all[0] == body@[0]@);
            assert(lines.take(0) =~= Seq::empty());
            reveal_strlit("");
        }
        while i < body.len()
            invariant
                1 <= i <= body@.len(),
                next@.unserialisable == Map::<Seq<char>, Seq<Seq<char>>>::empty(),
                next@.open_files == 0,
                restored_lines(lines.take(i - 1)) == Some((next@.bindings, next@.modules)),
                *self == *old(self),
            decreases body@.len() - i,
        {
            let line = body[i].as_str();
            proof {
                assert(lines[i - 1] == all[i as int]);
                assert(all[i as int] == line@);
                assert(lines.take(i as int).drop_last() =~= lines.take(i - 1));
                assert(lines.take(i as int).last() == line@);
            }
            let (word, rest) = split_head(line);
            let ghost before = next@;
            if same_text(word.as_str(), "bind") {
                let (key, value) = split_head(rest.as_str());
                next.bindings.insert(key.as_str(), value);
                proof {
                    assert(next@.bindings =~= before.bindings.insert(key@, value@));
                }
            } else if same_text(word.as_str(), "module") {
                next.modules.insert(rest.as_str(), true);
                proof {
                    assert(next@.modules =~= before.modules.insert(rest@));
                }
            } else if !same_text(word.as_str(), "lost") && !same_text(word.as_str(), "") {
                proof {
                    lemma_restore_refused(lines, i as int);
                }
                return FixtureStatus::Rejected("malformed-payload".to_owned());
            }
            i += 1;
        }
        proof {
            assert(lines.take(lines.len() as int) =~= lines);
        }
        *self = next;
        FixtureStatus::Done
    }
}

fn number(text: &str) -> (r: u64)
    ensures
        r == number_or_zero(text@),
{
    match parse_u64(text) {
        Some(n) => n,
        None => 0,
    }
}

proof fn lemma_ended(lines: Seq<Seq<char>>, line: Seq<char>)
    ensures
        ended(lines.push(line)) == ended(lines) + line + "\n"@,
{
    assert(lines.push(line).drop_last() =~= lines);
}

proof fn lemma_restore_refused(lines: Seq<Seq<char>>, n: int)
    requires
        0 <= n <= lines.len(),
        restored_lines(lines.take(n)) is None,
    ensures
        restored_lines(lines) is None,
    decreases lines.len(),
{
    if n == lines.len() {
        assert(lines.take(n) =~= lines);
    } else {
        assert(lines.drop_last().take(n) =~= lines.take(n));
        lemma_restore_refused(lines.drop_last(), n);
    }
}

/// Whether a text holds no line end.
pub open spec fn unbroken(text: Seq<char>) -> bool {
    forall|i: int| 0 <= i < text.len() ==> #[trigger] text[i] != '\n'
}

/// Whether a text can stand in one line: it holds no line end, and no carriage return at its end.
pub open spec fn one_line(text: Seq<char>) -> bool {
    &&& unbroken(text)
    &&& text.len() > 0 ==> text.last() != '\r'
}

/// Whether every text of a state came in by a line of the protocol: keys are single words, and
/// nothing holds a line end.
pub open spec fn spoken(state: StateView) -> bool {
    &&& forall|k: Seq<char>|
        #[trigger] state.bindings.dom().contains(k) ==> unbroken(k) && char_from(k, ' ', 0) is None
            && one_line(state.bindings[k])
    &&& forall|m: Seq<char>| #[trigger] state.modules.contains(m) ==> one_line(m)
    &&& forall|k: Seq<char>|
        #[trigger] state.unserialisable.dom().contains(k) ==> unbroken(k)
}

/// What a line parts into holds no line end either, and what ends the line is one line.
proof fn lemma_parts_of_lines(line: Seq<char>)
    requires
        one_line(line),
    ensures
        unbroken(head_of(line)),
        char_from(head_of(line), ' ', 0) is None,
        one_line(rest_of(line)),
{
    lemma_char_from(line, ' ', 0);
    let head = head_of(line);
    let rest = rest_of(line);
    match char_from(line, ' ', 0) {
        Some(p) => {
            assert forall|i: int| 0 <= i < head.len() implies head[i] != ' ' by {
                assert(head[i] == line[i]);
            }
            assert forall|i: int| 0 <= i < head.len() implies #[trigger] head[i] != '\n' by {
                assert(head[i] == line[i]);
            }
            lemma_char_absent(head, ' ', 0);
            assert forall|i: int| 0 <= i < rest.len() implies #[trigger] rest[i] != '\n' by {
                assert(rest[i] == line[p + 1 + i]);
            }
            if rest.len() > 0 {
                assert(rest.last() == line.last());
            }
        },
        None => {},
    }
}

/// Every line of a fragment leaves a state whose texts all came in by lines, so that whatever was
/// run, a restore undoes the snapshot. A line that ends in a carriage return is left out: what it
/// binds would lose it.
pub proof fn law_commands_keep_states_spoken(state: StateView, line: Seq<char>)
    requires
        spoken(state),
        one_line(line),
    ensures
        spoken(command_effect(state, line).0),
{
    lemma_parts_of_lines(line);
    lemma_parts_of_lines(rest_of(line));
}

/// A restore brings back every binding and every module of the state that a snapshot was taken of,
/// and nothing that the snapshot declared lost.
pub proof fn law_restore_undoes_snapshot(state: StateView)
    requires
        spoken(state),
        lists_in_order(sorted_keys(state.bindings.dom()), state.bindings.dom()),
        lists_in_order(sorted_keys(state.modules), state.modules),
        lists_in_order(sorted_keys(state.unserialisable.dom()), state.unserialisable.dom()),
    ensures
        restored(lines_of(ended(snapshot_lines(state)))) == Some((state.bindings, state.modules)),
{
    let all = snapshot_lines(state);
    let keys = sorted_keys(state.bindings.dom());
    let names = sorted_keys(state.modules);
    let kinds = sorted_keys(state.unserialisable.dom());
    let bound = binding_lines(keys, state.bindings);
    let loaded = module_lines(names);
    let files = if state.open_files > 0 {
        seq!["lost open_file "@ + decimal(state.open_files as nat)]
    } else {
        Seq::empty()
    };
    let lost = lost_lines(kinds, state.unserialisable);
    lemma_snapshot_lines_are_lines(state);
    lemma_lines_of_ended(all, all.len() as int);
    assert(all.skip(0) =~= all);
    assert(all.take(all.len() as int) =~= all);
    assert(all[0] == CHECKPOINT_HEADER@);
    assert(all.drop_first() =~= bound + loaded + (files + lost));
    lemma_restore_bindings(state.bindings, keys, keys.len() as int);
    assert(keys.take(keys.len() as int) =~= keys);
    assert(bound.take(keys.len() as int) =~= bound);
    lemma_restore_modules(bound, state.bindings, names, names.len() as int);
    assert(names.take(names.len() as int) =~= names);
    assert(loaded.take(names.len() as int) =~= loaded);
    assert forall|i: int| 0 <= i < (files + lost).len() implies head_of(
        #[trigger] (files + lost)[i],
    ) == "lost"@ by {
        lemma_lost_word(state, files, lost, kinds, i);
    }
    lemma_restore_lost(bound + loaded, files + lost, (files + lost).len() as int);
    assert((files + lost).take((files + lost).len() as int) =~= files + lost);
    let back = restored_lines(all.drop_first())->Some_0;
    assert(back.0 =~= state.bindings) by {
        assert forall|k: Seq<char>| #[trigger] back.0.dom().contains(k)
            == state.bindings.dom().contains(k) by {
            assert(keys.contains(k) == state.bindings.dom().contains(k));
        }
        assert(back.0.dom() =~= state.bindings.dom());
    }
    assert(back.1 =~= state.modules);
}

/// The bindings and modules of the first keys and names.
pub open spec fn kept(bindings: Map<Seq<char>, Seq<char>>, keys: Seq<Seq<char>>) -> Map<
    Seq<char>,
    Seq<char>,
> {
    Map::new(|k: Seq<char>| keys.contains(k), |k: Seq<char>| bindings[k])
}

proof fn lemma_take_contains(s: Seq<Seq<char>>, n: int, k: Seq<char>)
    requires
        0 < n <= s.len(),
    ensures
        s.take(n).contains(k) == (s.take(n - 1).contains(k) || k == s[n - 1]),
{
    let longer = s.take(n);
    let shorter = s.take(n - 1);
    if shorter.contains(k) {
        let i = choose|i: int| 0 <= i < shorter.len() && shorter[i] == k;
        assert(longer[i] == k);
    }
    if k == s[n - 1] {
        assert(longer[n - 1] == k);
    }
    if longer.contains(k) {
        let i = choose|i: int| 0 <= i < longer.len() && longer[i] == k;
        if i < n - 1 {
            assert(shorter[i] == k);
        }
    }
}

proof fn lemma_restore_bindings(
    bindings: Map<Seq<char>, Seq<char>>,
    keys: Seq<Seq<char>>,
    n: int,
)
    requires
        0 <= n <= keys.len(),
        forall|i: int| 0 <= i < keys.len() ==> char_from(#[trigger] keys[i], ' ', 0) is None,
    ensures
        restored_lines(binding_lines(keys, bindings).take(n)) == Some(
            (kept(bindings, keys.take(n)), Set::<Seq<char>>::empty()),
        ),
    decreases n,
{
    let lines = binding_lines(keys, bindings);
    if n == 0 {
        assert(lines.take(0) =~= Seq::empty());
        assert(kept(bindings, keys.take(0)) =~= Map::empty());
    } else {
        lemma_restore_bindings(bindings, keys, n - 1);
        let key = keys[n - 1];
        let line = "bind "@ + key + " "@ + bindings[key];
        assert(lines.take(n).drop_last() =~= lines.take(n - 1));
        assert(lines.take(n).last() == line);
        reveal_strlit("bind ");
        reveal_strlit("bind");
        reveal_strlit(" ");
        lemma_char_at(line, ' ', 0, 4);
        assert(line.take(4) =~= "bind"@);
        let rest = line.skip(5);
        assert(rest =~= key + " "@ + bindings[key]);
        lemma_char_from(key, ' ', 0);
        assert forall|i: int| 0 <= i < key.len() implies rest[i] != ' ' by {
            assert(rest[i] == key[i]);
        }
        lemma_char_at(rest, ' ', 0, key.len() as int);
        assert(rest.take(key.len() as int) =~= key);
        assert(rest.skip(key.len() as int + 1) =~= bindings[key]);
        assert(kept(bindings, keys.take(n)) =~= kept(bindings, keys.take(n - 1)).insert(
            key,
            bindings[key],
        )) by {
            assert forall|k: Seq<char>| #[trigger] keys.take(n).contains(k) == (keys.take(
                n - 1,
            ).contains(k) || k == key) by {
                lemma_take_contains(keys, n, k);
            }
        }
    }
}

proof fn lemma_restore_modules(
    bound: Seq<Seq<char>>,
    bindings: Map<Seq<char>, Seq<char>>,
    names: Seq<Seq<char>>,
    n: int,
)
    requires
        0 <= n <= names.len(),
        restored_lines(bound) is Some,
        restored_lines(bound)->Some_0.1 == Set::<Seq<char>>::empty(),
    ensures
        restored_lines(bound + module_lines(names).take(n)) is Some,
        restored_lines(bound + module_lines(names).take(n))->Some_0.0 == restored_lines(
            bound,
        )->Some_0.0,
        forall|m: Seq<char>|
            #[trigger] restored_lines(bound + module_lines(names).take(n))->Some_0.1.contains(m)
                <==> names.take(n).contains(m),
    decreases n,
{
    let lines = module_lines(names);
    if n == 0 {
        assert(bound + lines.take(0) =~= bound);
        assert(names.take(0) =~= Seq::empty());
    } else {
        lemma_restore_modules(bound, bindings, names, n - 1);
        let name = names[n - 1];
        let line = "module "@ + name;
        let now = bound + lines.take(n);
        assert(now.drop_last() =~= bound + lines.take(n - 1));
        assert(now.last() == line);
        reveal_strlit("module ");
        reveal_strlit("module");
        reveal_strlit("bind");
        lemma_char_at(line, ' ', 0, 6);
        assert(line.take(6) =~= "module"@);
        assert(line.skip(7) =~= name);
        assert("module"@.len() == 6 && "bind"@.len() == 4);
        assert forall|m: Seq<char>|
            #[trigger] restored_lines(now)->Some_0.1.contains(m) <==> names.take(n).contains(m) by {
            lemma_take_contains(names, n, m);
        }
    }
}

proof fn lemma_restore_lost(before: Seq<Seq<char>>, lost: Seq<Seq<char>>, n: int)
    requires
        0 <= n <= lost.len(),
        forall|i: int| 0 <= i < lost.len() ==> head_of(#[trigger] lost[i]) == "lost"@,
        restored_lines(before) is Some,
    ensures
        restored_lines(before + lost.take(n)) == restored_lines(before),
    decreases n,
{
    if n == 0 {
        assert(before + lost.take(0) =~= before);
    } else {
        lemma_restore_lost(before, lost, n - 1);
        let now = before + lost.take(n);
        assert(now.drop_last() =~= before + lost.take(n - 1));
        assert(now.last() == lost[n - 1]);
        reveal_strlit("lost");
        reveal_strlit("bind");
        reveal_strlit("module");
        assert("lost"@[0] == 'l' && "bind"@[0] == 'b' && "module"@[0] == 'm');
    }
}

proof fn lemma_lost_word(
    state: StateView,
    files: Seq<Seq<char>>,
    lost: Seq<Seq<char>>,
    kinds: Seq<Seq<char>>,
    i: int,
)
    requires
        files == (if state.open_files > 0 {
            seq!["lost open_file "@ + decimal(state.open_files as nat)]
        } else {
            Seq::empty()
        }),
        lost == lost_lines(kinds, state.unserialisable),
        0 <= i < (files + lost).len(),
    ensures
        head_of((files + lost)[i]) == "lost"@,
{
    let line = (files + lost)[i];
    reveal_strlit("lost");
    reveal_strlit("lost open_file ");
    reveal_strlit("lost unserialisable_value ");
    if i < files.len() {
        assert(line == "lost open_file "@ + decimal(state.open_files as nat));
    } else {
        assert(line == lost[i - files.len()]);
    }
    lemma_char_at(line, ' ', 0, 4);
    assert(line.take(4) =~= "lost"@);
}

proof fn lemma_snapshot_lines_are_lines(state: StateView)
    requires
        spoken(state),
        lists_in_order(sorted_keys(state.bindings.dom()), state.bindings.dom()),
        lists_in_order(sorted_keys(state.modules), state.modules),
        lists_in_order(sorted_keys(state.unserialisable.dom()), state.unserialisable.dom()),
    ensures
        forall|i: int|
            0 <= i < snapshot_lines(state).len() ==> one_line(#[trigger] snapshot_lines(state)[i]),
        forall|i: int|
            0 <= i < sorted_keys(state.bindings.dom()).len() ==> char_from(
                #[trigger] sorted_keys(state.bindings.dom())[i],
                ' ',
                0,
            ) is None,
{
    let all = snapshot_lines(state);
    let keys = sorted_keys(state.bindings.dom());
    let names = sorted_keys(state.modules);
    let kinds = sorted_keys(state.unserialisable.dom());
    assert forall|i: int| 0 <= i < keys.len() implies unbroken(#[trigger] keys[i]) && char_from(
        keys[i],
        ' ',
        0,
    ) is None && one_line(state.bindings[keys[i]]) by {
        assert(keys.contains(keys[i]));
        assert(state.bindings.dom().contains(keys[i]));
    }
    assert forall|i: int| 0 <= i < names.len() implies one_line(#[trigger] names[i]) by {
        assert(names.contains(names[i]));
        assert(state.modules.contains(names[i]));
    }
    assert forall|i: int| 0 <= i < kinds.len() implies unbroken(#[trigger] kinds[i]) by {
        assert(kinds.contains(kinds[i]));
        assert(state.unserialisable.dom().contains(kinds[i]));
    }
    reveal_strlit("kernel-checkpoint 1");
    reveal_strlit("bind ");
    reveal_strlit(" ");
    reveal_strlit("module ");
    reveal_strlit("lost open_file ");
    reveal_strlit("lost unserialisable_value ");
    let bound = binding_lines(keys, state.bindings);
    let loaded = module_lines(names);
    let files = if state.open_files > 0 {
        seq!["lost open_file "@ + decimal(state.open_files as nat)]
    } else {
        Seq::empty()
    };
    let lost = lost_lines(kinds, state.unserialisable);
    assert forall|i: int| 0 <= i < all.len() implies one_line(#[trigger] all[i]) by {
        if i == 0 {
            assert(all[0] == CHECKPOINT_HEADER@);
        } else if i < 1 + bound.len() {
            let k = i - 1;
            assert(all[i] == bound[k]);
            lemma_joined_line("bind "@, keys[k], " "@ + state.bindings[keys[k]]);
            lemma_joined_line(" "@, state.bindings[keys[k]], Seq::empty());
            assert(" "@ + state.bindings[keys[k]] + Seq::<char>::empty() =~= " "@
                + state.bindings[keys[k]]);
            assert(all[i] =~= "bind "@ + keys[k] + (" "@ + state.bindings[keys[k]]));
        } else if i < 1 + bound.len() + loaded.len() {
            let k = i - 1 - bound.len();
            assert(all[i] == loaded[k]);
            lemma_joined_line("module "@, names[k], Seq::empty());
            assert(all[i] =~= "module "@ + names[k] + Seq::<char>::empty());
        } else if i < 1 + bound.len() + loaded.len() + files.len() {
            assert(all[i] == files[0]);
            crate::text::lemma_decimal_digits(state.open_files as nat);
            lemma_joined_line("lost open_file "@, decimal(state.open_files as nat), Seq::empty());
            assert(all[i] =~= "lost open_file "@ + decimal(state.open_files as nat)
                + Seq::<char>::empty());
        } else {
            let k = i - 1 - bound.len() - loaded.len() - files.len();
            assert(all[i] == lost[k]);
            let number = decimal(state.unserialisable[kinds[k]].len());
            crate::text::lemma_decimal_digits(state.unserialisable[kinds[k]].len());
            lemma_joined_line(" "@, number, Seq::empty());
            assert(" "@ + number + Seq::<char>::empty() =~= " "@ + number);
            lemma_joined_line("lost unserialisable_value "@, kinds[k], " "@ + number);
            assert(all[i] =~= "lost unserialisable_value "@ + kinds[k] + (" "@ + number));
        }
    }
}

/// Texts of one line that stand behind each other make one line.
proof fn lemma_joined_line(a: Seq<char>, b: Seq<char>, c: Seq<char>)
    requires
        unbroken(a),
        unbroken(b),
        one_line(c),
        a.len() > 0,
        a.last() != '\r',
        c.len() > 0 || one_line(b),
    ensures
        one_line(a + b + c),
{
    let s = a + b + c;
    assert forall|i: int| 0 <= i < s.len() implies #[trigger] s[i] != '\n' by {
        if i < a.len() {
            assert(s[i] == a[i]);
        } else if i < a.len() + b.len() {
            assert(s[i] == b[i - a.len()]);
        } else {
            assert(s[i] == c[i - a.len() - b.len()]);
        }
    }
}

/// The lines of lines with their ends are those lines.
proof fn lemma_lines_of_ended(lines: Seq<Seq<char>>, n: int)
    requires
        0 <= n <= lines.len(),
        forall|i: int| 0 <= i < lines.len() ==> one_line(#[trigger] lines[i]),
    ensures
        lines_of(ended(lines.skip(lines.len() - n))) == lines.skip(lines.len() - n),
    decreases n,
{
    let rest = lines.skip(lines.len() - n);
    if n == 0 {
        assert(rest =~= Seq::empty());
        lemma_char_absent(Seq::<char>::empty(), '\n', 0);
        assert(lines_of(Seq::<char>::empty()) =~= Seq::empty());
    } else {
        let line = lines[lines.len() - n];
        let tail = lines.skip(lines.len() - n + 1);
        lemma_lines_of_ended(lines, n - 1);
        assert(rest =~= seq![line] + tail);
        lemma_ended_first(line, tail);
        lemma_first_line(line, ended(tail));
    }
}

proof fn lemma_ended_first(line: Seq<char>, tail: Seq<Seq<char>>)
    ensures
        ended(seq![line] + tail) == line + "\n"@ + ended(tail),
    decreases tail.len(),
{
    let all = seq![line] + tail;
    if tail.len() == 0 {
        assert(all.drop_last() =~= Seq::empty());
        assert(ended(all.drop_last()) =~= Seq::<char>::empty());
        assert(all.last() == line);
        assert(ended(all) =~= line + "\n"@ + ended(tail));
    } else {
        lemma_ended_first(line, tail.drop_last());
        assert(all.drop_last() =~= seq![line] + tail.drop_last());
        assert(all.last() == tail.last());
        assert(ended(all) =~= line + "\n"@ + ended(tail));
    }
}

/// A kernel that was told a value tells it when it is asked: a line that gets a name writes the
/// name with the value of the last line that set it, and other names keep theirs.
pub proof fn law_kernels_tell_what_they_were_told(
    state: StateView,
    set: Seq<char>,
    get: Seq<char>,
    other: Seq<char>,
)
    requires
        head_of(set) == "set"@,
        head_of(get) == "get"@,
        rest_of(get) == head_of(rest_of(set)),
        head_of(other) == "get"@,
        rest_of(other) != head_of(rest_of(set)),
    ensures
        ({
            let after = command_effect(state, set).0;
            let name = rest_of(get);
            &&& command_effect(after, get).1 == StepView::Write(
                ProgramStream::Stdout,
                name + "="@ + rest_of(rest_of(set)) + "\n"@,
            )
            &&& command_effect(after, get).0 == after
            &&& command_effect(after, other).1 == command_effect(state, other).1
            &&& after.modules == state.modules
            &&& after.open_files == state.open_files
            &&& after.unserialisable == state.unserialisable
        }),
{
    reveal_strlit("");
    reveal_strlit("set");
    reveal_strlit("get");
    assert("set"@[0] == 's' && "get"@[0] == 'g');
    assert("set"@.len() == 3 && "get"@.len() == 3 && ""@.len() == 0);
}

} // verus!
