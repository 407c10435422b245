//! What a kernel's snapshot declares: how much it carries, and what it admits it lost.

use crate::digest::text_views;
use crate::kernel::receipt::{
    carried_views, loss_views, CarriedView, LossView, NonRestorableFact, RestorableFact,
};
use crate::kernel::{
    corrupt, kernel_fault, label_fault, two, KernelError, KernelFault, KernelLabel,
    MAX_KERNEL_NON_RESTORABLE_FACTS, MAX_KERNEL_RESTORABLE_FACTS,
};
use crate::text::{
    char_from, chars_of, debug_quoted, head_of, lines_of, parse_u64, parsed_u64, quoted, rest_of,
    same_text, split_head, split_lines, utf8_text,
};
use vstd::prelude::*;
use vstd::utf8::{decode_utf8, encode_utf8_decode_utf8, valid_utf8};

verus! {

/// The first line of a snapshot.
pub const CHECKPOINT_HEADER: &'static str = "kernel-checkpoint 1";

/// Whether a text has a space in it.
pub open spec fn has_space(s: Seq<char>) -> bool {
    char_from(s, ' ', 0) is Some
}

/// Whether a text has a space in it.
fn holds_space(s: &str) -> (r: bool)
    ensures
        r == has_space(s@),
{
    let chars = chars_of(s);
    let mut i: usize = 0;
    while i < chars.len()
        invariant
            i <= chars@.len(),
            chars@ == s@,
            char_from(s@, ' ', 0) == char_from(s@, ' ', i as int),
        decreases chars@.len() - i,
    {
        if chars[i] == ' ' {
            return true;
        }
        i += 1;
    }
    false
}

/// A count, or why there is none.
pub open spec fn loss_count(value: Option<Seq<char>>) -> Result<u64, KernelFault> {
    match value {
        Some(text) => match parsed_u64(text) {
            Some(n) => Ok(n),
            None => Err(
                KernelFault::Corrupt("a kernel snapshot declares a loss with no count"@),
            ),
        },
        None => Err(KernelFault::Corrupt("a kernel snapshot declares a loss with no count"@)),
    }
}

/// The fields behind the kind of a loss: up to two of them are read.
pub struct LossFields {
    pub first: Option<Seq<char>>,
    pub second: Option<Seq<char>>,
}

/// The first two fields of a text that spaces part.
pub open spec fn two_fields(s: Option<Seq<char>>) -> LossFields {
    match s {
        None => LossFields { first: None, second: None },
        Some(text) => LossFields {
            first: Some(head_of(text)),
            second: if has_space(text) {
                Some(head_of(rest_of(text)))
            } else {
                None
            },
        },
    }
}

/// The name of a kind; nothing when it is missing.
pub open spec fn kind_text(first: Option<Seq<char>>) -> Seq<char> {
    match first {
        Some(text) => text,
        None => Seq::empty(),
    }
}

/// The loss that a line declares behind its first word, or why it declares none.
pub open spec fn loss_read(kind: Seq<char>, fields: LossFields) -> Result<LossView, KernelFault> {
    let name = kind_text(fields.first);
    if kind == "open_file"@ {
        match loss_count(fields.first) {
            Ok(count) => Ok(LossView::OpenFile { count }),
            Err(e) => Err(e),
        }
    } else if kind == "network_connection"@ {
        match loss_count(fields.first) {
            Ok(count) => Ok(LossView::NetworkConnection { count }),
            Err(e) => Err(e),
        }
    } else if kind == "child_process"@ {
        match loss_count(fields.first) {
            Ok(count) => Ok(LossView::ChildProcess { count }),
            Err(e) => Err(e),
        }
    } else if kind == "concurrent_task"@ {
        match loss_count(fields.first) {
            Ok(count) => Ok(LossView::ConcurrentTask { count }),
            Err(e) => Err(e),
        }
    } else if kind == "foreign_handle"@ {
        match label_fault(name) {
            Some(e) => Err(e),
            None => match loss_count(fields.second) {
                Ok(count) => Ok(LossView::ForeignHandle { kind: name, count }),
                Err(e) => Err(e),
            },
        }
    } else if kind == "unserialisable_value"@ {
        match label_fault(name) {
            Some(e) => Err(e),
            None => match loss_count(fields.second) {
                Ok(count) => Ok(LossView::UnserialisableValue { kind: name, count }),
                Err(e) => Err(e),
            },
        }
    } else if kind == "external_mutation"@ {
        match label_fault(name) {
            Some(e) => Err(e),
            None => Ok(LossView::ExternalMutation { kind: name }),
        }
    } else {
        Err(KernelFault::Corrupt("a kernel snapshot declares an unknown loss "@ + debug_quoted(kind)))
    }
}

/// The loss that a line declares, or why it declares none.
pub open spec fn loss_line(line: Seq<char>) -> Result<LossView, KernelFault> {
    if !has_space(line) {
        Err(KernelFault::Corrupt("a kernel snapshot declares a loss with no kind"@))
    } else {
        let declared = rest_of(line);
        loss_read(
            head_of(declared),
            two_fields(
                if has_space(declared) {
                    Some(rest_of(declared))
                } else {
                    None
                },
            ),
        )
    }
}

fn read_count(value: &Option<String>) -> (r: Result<u64, KernelError>)
    ensures
        match loss_count(crate::text::option_view(*value)) {
            Ok(n) => r is Ok && r->Ok_0 == n,
            Err(e) => kernel_fault(r) == Some(e),
        },
{
    if let Some(text) = value {
        if let Some(n) = parse_u64(text.as_str()) {
            return Ok(n);
        }
    }
    Err(corrupt("a kernel snapshot declares a loss with no count"))
}

/// Reads the loss that a line declares.
pub fn parse_loss(line: &str) -> (r: Result<NonRestorableFact, KernelError>)
    ensures
        match loss_line(line@) {
            Ok(loss) => r is Ok && r->Ok_0@ == loss,
            Err(e) => kernel_fault(r) == Some(e),
        },
{
    if !holds_space(line) {
        return Err(corrupt("a kernel snapshot declares a loss with no kind"));
    }
    let (_, declared) = split_head(line);
    let more = holds_space(declared.as_str());
    let (kind, tail) = split_head(declared.as_str());
    let (name, behind) = split_head(tail.as_str());
    let (number, _) = split_head(behind.as_str());
    let second: Option<String> = if more && holds_space(tail.as_str()) {
        Some(number)
    } else {
        None
    };
    let label_text = if more {
        name.clone()
    } else {
        let nothing = String::new();
        proof {
            assert(nothing@ =~= Seq::<char>::empty());
        }
        nothing
    };
    let first: Option<String> = if more {
        Some(name)
    } else {
        None
    };
    let kind_name = kind.as_str();
    if same_text(kind_name, "open_file") {
        return Ok(NonRestorableFact::OpenFile { count: read_count(&first)? });
    }
    if same_text(kind_name, "network_connection") {
        return Ok(NonRestorableFact::NetworkConnection { count: read_count(&first)? });
    }
    if same_text(kind_name, "child_process") {
        return Ok(NonRestorableFact::ChildProcess { count: read_count(&first)? });
    }
    if same_text(kind_name, "concurrent_task") {
        return Ok(NonRestorableFact::ConcurrentTask { count: read_count(&first)? });
    }
    if same_text(kind_name, "foreign_handle") {
        let kind = KernelLabel::new(label_text.as_str())?;
        return Ok(NonRestorableFact::ForeignHandle { kind, count: read_count(&second)? });
    }
    if same_text(kind_name, "unserialisable_value") {
        let kind = KernelLabel::new(label_text.as_str())?;
        return Ok(NonRestorableFact::UnserialisableValue { kind, count: read_count(&second)? });
    }
    if same_text(kind_name, "external_mutation") {
        let kind = KernelLabel::new(label_text.as_str())?;
        return Ok(NonRestorableFact::ExternalMutation { kind });
    }
    let name = quoted(kind_name);
    Err(KernelError::Corrupt(two("a kernel snapshot declares an unknown loss ", name.as_str())))
}

/// What the lines of a snapshot add up to.
pub struct Tally {
    pub bindings: nat,
    pub modules: nat,
    pub losses: Seq<LossView>,
}

/// What one more line adds, or why it is refused.
pub open spec fn tally_line(tally: Tally, line: Seq<char>) -> Result<Tally, KernelFault> {
    let word = head_of(line);
    if word == "bind"@ {
        Ok(Tally { bindings: tally.bindings + 1, ..tally })
    } else if word == "module"@ {
        Ok(Tally { modules: tally.modules + 1, ..tally })
    } else if word == "lost"@ {
        match loss_line(line) {
            Ok(loss) => Ok(Tally { losses: tally.losses.push(loss), ..tally }),
            Err(e) => Err(e),
        }
    } else if word == ""@ {
        Ok(tally)
    } else {
        Err(
            KernelFault::Corrupt(
                "a kernel snapshot declares an unknown line "@ + debug_quoted(word),
            ),
        )
    }
}

/// What lines add up to, or why one of them is refused.
pub open spec fn tally_lines(lines: Seq<Seq<char>>) -> Result<Tally, KernelFault>
    decreases lines.len(),
{
    if lines.len() == 0 {
        Ok(Tally { bindings: 0, modules: 0, losses: Seq::empty() })
    } else {
        match tally_lines(lines.drop_last()) {
            Ok(tally) => tally_line(tally, lines.last()),
            Err(e) => Err(e),
        }
    }
}

/// The restorable declarations of a tally.
pub open spec fn carried_facts(bindings: nat, modules: nat) -> Seq<CarriedView> {
    (if bindings > 0 {
        seq![CarriedView::Bindings { count: bindings as u64 }]
    } else {
        Seq::empty()
    }) + (if modules > 0 {
        seq![CarriedView::Modules { count: modules as u64 }]
    } else {
        Seq::empty()
    })
}

/// What the text of a snapshot declares, or why it is refused.
pub open spec fn snapshot_read(text: Seq<char>) -> Result<
    (Seq<CarriedView>, Seq<LossView>),
    KernelFault,
> {
    let lines = lines_of(text);
    if lines.len() == 0 || lines[0] != CHECKPOINT_HEADER@ {
        Err(KernelFault::Corrupt("a kernel snapshot has no recognisable header"@))
    } else {
        match tally_lines(lines.drop_first()) {
            Err(e) => Err(e),
            Ok(tally) => if tally.losses.len() > MAX_KERNEL_NON_RESTORABLE_FACTS {
                Err(KernelFault::Corrupt("a kernel snapshot declares too many facts"@))
            } else {
                Ok((carried_facts(tally.bindings, tally.modules), tally.losses))
            },
        }
    }
}

/// What a snapshot declares, or why it is refused.
pub open spec fn snapshot_outcome(payload: Seq<u8>) -> Result<
    (Seq<CarriedView>, Seq<LossView>),
    KernelFault,
> {
    if !valid_utf8(payload) {
        Err(KernelFault::Corrupt("a kernel snapshot is not valid UTF-8"@))
    } else {
        snapshot_read(decode_utf8(payload))
    }
}

proof fn lemma_tally_refused(lines: Seq<Seq<char>>, n: int)
    requires
        0 <= n <= lines.len(),
        tally_lines(lines.take(n)) is Err,
    ensures
        tally_lines(lines) == tally_lines(lines.take(n)),
    decreases lines.len(),
{
    if n == lines.len() {
        assert(lines.take(n) =~= lines);
    } else {
        assert(lines.drop_last().take(n) =~= lines.take(n));
        lemma_tally_refused(lines.drop_last(), n);
    }
}

/// Reads what a snapshot declares. Its content is the kernel's business.
#[verifier::loop_isolation(false)]
pub fn parse_snapshot(payload: &[u8]) -> (r: Result<
    (Vec<RestorableFact>, Vec<NonRestorableFact>),
    KernelError,
>)
    ensures
        match snapshot_outcome(payload@) {
            Ok((carried, lost)) => r is Ok && carried_views(r->Ok_0.0@) == carried && loss_views(
                r->Ok_0.1@,
            ) == lost,
            Err(e) => kernel_fault(r) == Some(e),
        },
{
    let text = match utf8_text(payload) {
        Some(text) => text,
        None => {
            return Err(corrupt("a kernel snapshot is not valid UTF-8"));
        },
    };
    proof {
        encode_utf8_decode_utf8(text@);
    }
    let lines = split_lines(text.as_str());
    let ghost all = lines_of(text@);
    proof {
        assert(text_views(lines@) == all);
        assert(all.len() == lines@.len());
    }
    if lines.len() == 0 || !same_text(lines[0].as_str(), CHECKPOINT_HEADER) {
        proof {
            if all.len() > 0 {
                assert(all[0] == lines@[0]@);
            }
        }
        return Err(corrupt("a kernel snapshot has no recognisable header"));
    }
    let ghost body = all.drop_first();
    proof {
        assert(all[0] == lines@[0]@);
        assert(body.take(0) =~= Seq::empty());
    }
    let mut bindings: u64 = 0;
    let mut modules: u64 = 0;
    let mut lost: Vec<NonRestorableFact> = Vec::new();
    let mut i: usize = 1;
    proof {
        assert(loss_views(lost@) =~= Seq::empty());
    }
    while i < lines.len()
        invariant
            1 <= i <= lines@.len(),
            bindings < i,
            modules < i,
            tally_lines(body.take(i - 1)) == Ok::<Tally, KernelFault>(
                Tally {
                    bindings: bindings as nat,
                    modules: modules as nat,
                    losses: loss_views(lost@),
                },
            ),
        decreases lines@.len() - i,
    {
        let line = lines[i].as_str();
        let ghost before = loss_views(lost@);
        proof {
            assert(body[i - 1] == all[i as int]);
            assert(all[i as int] == line@);
            assert(body.take(i as int).drop_last() =~= body.take(i - 1));
            assert(body.take(i as int).last() == line@);
        }
        let (word, _) = split_head(line);
        if same_text(word.as_str(), "bind") {
            bindings += 1;
        } else if same_text(word.as_str(), "module") {
            modules += 1;
        } else if same_text(word.as_str(), "lost") {
            match parse_loss(line) {
                Ok(loss) => {
                    lost.push(loss);
                    proof {
                        assert(loss_views(lost@) =~= before.push(loss@));
                    }
                },
                Err(error) => {
                    proof {
                        lemma_tally_refused(body, i as int);
                    }
                    return Err(error);
                },
            }
        } else if !same_text(word.as_str(), "") {
            let name = quoted(word.as_str());
            proof {
                lemma_tally_refused(body, i as int);
            }
            return Err(
                KernelError::Corrupt(
                    two("a kernel snapshot declares an unknown line ", name.as_str()),
                ),
            );
        }
        i += 1;
    }
    proof {
        assert(body.take(body.len() as int) =~= body);
    }
    let mut carried: Vec<RestorableFact> = Vec::new();
    if bindings > 0 {
        carried.push(RestorableFact::Bindings { count: bindings });
    }
    if modules > 0 {
        carried.push(RestorableFact::Modules { count: modules });
    }
    proof {
        assert(carried_views(carried@) =~= carried_facts(bindings as nat, modules as nat));
    }
    if carried.len() > MAX_KERNEL_RESTORABLE_FACTS || lost.len() > MAX_KERNEL_NON_RESTORABLE_FACTS {
        return Err(corrupt("a kernel snapshot declares too many facts"));
    }
    Ok((carried, lost))
}

/// How the lines of a snapshot add up, line by line: a binding and a module count once each, a loss
/// is declared behind those before it, an empty line adds nothing, and no line takes anything away.
/// Any other line refuses the snapshot.
pub proof fn law_snapshots_add_up(lines: Seq<Seq<char>>, line: Seq<char>)
    requires
        tally_lines(lines) is Ok,
    ensures
        ({
            let was = tally_lines(lines)->Ok_0;
            let answer = tally_lines(lines.push(line));
            let is = answer->Ok_0;
            let word = head_of(line);
            &&& word == "bind"@ ==> answer is Ok && is.bindings == was.bindings + 1 && is.modules
                == was.modules && is.losses == was.losses
            &&& word == "module"@ ==> answer is Ok && is.bindings == was.bindings && is.modules
                == was.modules + 1 && is.losses == was.losses
            &&& word == "lost"@ ==> (answer is Ok <==> loss_line(line) is Ok)
            &&& word == "lost"@ && answer is Ok ==> is.bindings == was.bindings && is.modules
                == was.modules && is.losses == was.losses.push(loss_line(line)->Ok_0)
            &&& word == ""@ ==> answer is Ok && is == was
            &&& word != "bind"@ && word != "module"@ && word != "lost"@ && word != ""@
                ==> answer is Err
        }),
{
    reveal_strlit("bind");
    reveal_strlit("module");
    reveal_strlit("lost");
    reveal_strlit("");
    assert("bind"@[0] == 'b' && "lost"@[0] == 'l');
    assert("bind"@.len() == 4 && "module"@.len() == 6 && "lost"@.len() == 4 && ""@.len() == 0);
    assert(lines.push(line).drop_last() =~= lines);
    assert(lines.push(line).last() == line);
}

/// What a snapshot carries is declared by the number of its bindings and of its modules, each only
/// where there are any; what it loses is declared as it was listed.
pub proof fn law_snapshots_declare_what_they_carry(text: Seq<char>)
    ensures
        snapshot_read(text) matches Ok((carried, lost)) ==> {
            let lines = lines_of(text);
            let tally = tally_lines(lines.drop_first())->Ok_0;
            &&& lines.len() > 0
            &&& lines[0] == "kernel-checkpoint 1"@
            &&& lost == tally.losses
            &&& lost.len() <= MAX_KERNEL_NON_RESTORABLE_FACTS
            &&& tally.bindings > 0 ==> carried.contains(
                CarriedView::Bindings { count: tally.bindings as u64 },
            )
            &&& tally.modules > 0 ==> carried.contains(
                CarriedView::Modules { count: tally.modules as u64 },
            )
            &&& carried.len() == (if tally.bindings > 0 {
                1nat
            } else {
                0nat
            }) + (if tally.modules > 0 {
                1nat
            } else {
                0nat
            })
        },
{
    if snapshot_read(text) is Ok {
        let tally = tally_lines(lines_of(text).drop_first())->Ok_0;
        let carried = snapshot_read(text)->Ok_0.0;
        if tally.bindings > 0 {
            assert(carried[0] == (CarriedView::Bindings { count: tally.bindings as u64 }));
        }
        if tally.modules > 0 {
            assert(carried[carried.len() - 1] == (CarriedView::Modules {
                count: tally.modules as u64,
            }));
        }
    }
}

/// A loss is of the kind that its line names, with the count and the name that stand behind it.
pub proof fn law_losses_are_of_the_kind_they_name(kind: Seq<char>, fields: LossFields)
    ensures
        loss_read(kind, fields) matches Ok(loss) ==> {
            let first = loss_count(fields.first);
            let second = loss_count(fields.second);
            &&& loss is OpenFile <==> kind == "open_file"@
            &&& loss is NetworkConnection <==> kind == "network_connection"@
            &&& loss is ChildProcess <==> kind == "child_process"@
            &&& loss is ConcurrentTask <==> kind == "concurrent_task"@
            &&& loss is ForeignHandle <==> kind == "foreign_handle"@
            &&& loss is UnserialisableValue <==> kind == "unserialisable_value"@
            &&& loss is ExternalMutation <==> kind == "external_mutation"@
            &&& loss matches LossView::OpenFile { count } ==> first == Ok::<u64, KernelFault>(count)
            &&& loss matches LossView::NetworkConnection { count } ==> first == Ok::<
                u64,
                KernelFault,
            >(count)
            &&& loss matches LossView::ChildProcess { count } ==> first == Ok::<u64, KernelFault>(
                count,
            )
            &&& loss matches LossView::ConcurrentTask { count } ==> first == Ok::<u64, KernelFault>(
                count,
            )
            &&& loss matches LossView::ForeignHandle { kind: name, count } ==> second == Ok::<
                u64,
                KernelFault,
            >(count) && name == kind_text(fields.first)
            &&& loss matches LossView::UnserialisableValue { kind: name, count } ==> second == Ok::<
                u64,
                KernelFault,
            >(count) && name == kind_text(fields.first)
            &&& loss matches LossView::ExternalMutation { kind: name } ==> name == kind_text(
                fields.first,
            )
        },
{
    reveal_strlit("open_file");
    reveal_strlit("network_connection");
    reveal_strlit("child_process");
    reveal_strlit("concurrent_task");
    reveal_strlit("foreign_handle");
    reveal_strlit("unserialisable_value");
    reveal_strlit("external_mutation");
    assert("open_file"@.len() == 9 && "network_connection"@.len() == 18 && "child_process"@.len()
        == 13 && "concurrent_task"@.len() == 15 && "foreign_handle"@.len() == 14
        && "unserialisable_value"@.len() == 20 && "external_mutation"@.len() == 17);
}

} // verus!
