//! What passes between the driver and the bus in the course of whole
//! transactions.
//!
//! A transaction is followed here from the assertion of chip-select to its
//! end, against a bus that may refuse any byte and a select line that may
//! fail to move.

use crate::display::{verdict, Action, Fault, Stage, State};
use crate::protocol::{lemma_frame_layout, lemma_frame_len, line, line_len, Command};
use vstd::prelude::*;

verus! {

/// The driver after it has been told `outcomes` one by one, each for the
/// action it asked for just before, and the actions it asked for in return.
pub open spec fn run(state: State, outcomes: Seq<bool>) -> (State, Seq<Action>)
    decreases outcomes.len(),
{
    if outcomes.len() == 0 {
        (state, Seq::empty())
    } else {
        let (before, actions) = run(state, outcomes.drop_last());
        let (after, action) = before.step(outcomes.last());
        (after, actions.push(action))
    }
}

/// How many of `len` bytes are tried on a bus that takes `taken` bytes and
/// then no more: the byte that is refused is the last one tried.
pub open spec fn tried(len: nat, taken: nat) -> nat {
    if taken < len {
        taken + 1
    } else {
        len
    }
}

/// The fault, if any, in which the writes of `len` bytes end on a bus that
/// takes `taken` bytes and then no more.
pub open spec fn write_fault(len: nat, taken: nat) -> Option<Fault> {
    if taken < len {
        Some(Fault::Transport)
    } else {
        None
    }
}

/// The outcomes that a transaction of `len` bytes meets when chip-select is
/// asserted, the bus takes `taken` bytes and then no more, and chip-select
/// is deasserted with success or not: one outcome for the assertion, one
/// for each byte tried, and one for the deassertion.
pub open spec fn outcomes_of(len: nat, taken: nat, released: bool) -> Seq<bool> {
    Seq::new(tried(len, taken) + 1, |i: int| i <= taken).push(released)
}

/// The actions that write the first `count` of `bytes`, in order.
pub open spec fn writes(bytes: Seq<u8>, count: nat) -> Seq<Action> {
    Seq::new(count, |i: int| Action::Write(bytes[i]))
}

/// One transaction as the bus lets it go: the command, the number of bytes
/// that the bus takes before it takes no more, and whether chip-select can
/// be deasserted at the end.
pub struct Transfer {
    pub command: Command,
    pub taken: nat,
    pub released: bool,
}

impl Transfer {
    /// The transfer of `command` in which nothing fails.
    pub open spec fn clean(state: State, command: Command) -> Transfer {
        Transfer { command, taken: state.frame_for(command).len(), released: true }
    }
}

/// The driver after the given transaction, and the actions it asks for
/// once it has asked for chip-select and got it.
pub open spec fn transaction(state: State, transfer: Transfer) -> (State, Seq<Action>) {
    run(
        state.begin(transfer.command),
        outcomes_of(
            state.begin(transfer.command).frame_for(transfer.command).len(),
            transfer.taken,
            transfer.released,
        ),
    )
}

/// The driver after the given transactions, one after the other.
pub open spec fn after_all(state: State, transfers: Seq<Transfer>) -> State
    decreases transfers.len(),
{
    if transfers.len() == 0 {
        state
    } else {
        transaction(after_all(state, transfers.drop_last()), transfers.last()).0
    }
}

/// A frame starts with the command byte at the present polarity, and
/// another byte follows.
pub proof fn lemma_frame_for(state: State, command: Command)
    ensures
        state.frame_for(command).len() >= 2,
        state.frame_for(command)[0] == state.controller.command_byte_of(command, state.polarity),
{
    lemma_frame_len(
        state.controller.framing,
        state.controller.command_byte_of(command, state.polarity),
        state.bitmap,
    );
}

/// A step keeps a well-formed driver well formed, and so does taking up a
/// command.
pub proof fn lemma_step_wf(state: State, ok: bool, command: Command)
    requires
        state.wf(),
    ensures
        state.step(ok).0.wf(),
        state.begin(command).wf(),
{
    match state.stage {
        Stage::Selecting(command) => {
            lemma_frame_for(state, command);
        },
        _ => {},
    }
}

/// Chip-select is asserted from the moment its assertion succeeds to the
/// moment its deassertion is over, and at no other time.
pub proof fn lemma_selected(state: State, ok: bool)
    ensures
        state.step(ok).0.selected() == (match state.stage {
            Stage::Selecting(_) => ok,
            Stage::Writing(_, _) => true,
            _ => false,
        }),
{
}

/// One more outcome is one more step.
pub proof fn lemma_run_push(state: State, outcomes: Seq<bool>, ok: bool)
    ensures
        run(state, outcomes.push(ok)) == (
            run(state, outcomes).0.step(ok).0,
            run(state, outcomes).1.push(run(state, outcomes).0.step(ok).1),
        ),
{
    assert(outcomes.push(ok).drop_last() =~= outcomes);
}

/// While the bus takes the bytes, the driver writes them one after the
/// other in the order of the frame.
proof fn lemma_writing(selecting: State, command: Command, taken: nat)
    requires
        selecting.wf(),
        selecting.stage == Stage::Selecting(command),
        taken < selecting.frame_for(command).len(),
    ensures
        run(selecting, Seq::new(taken + 1, |i: int| true)) == (
            selecting.concluded().at(Stage::Writing(selecting.frame_for(command), taken as int)),
            writes(selecting.frame_for(command), taken + 1),
        ),
    decreases taken,
{
    let bytes = selecting.frame_for(command);
    let script = Seq::new(taken + 1, |i: int| true);
    let shorter = Seq::new(taken, |i: int| true);
    assert(script =~= shorter.push(true));
    lemma_run_push(selecting, shorter, true);
    if taken == 0 {
        assert(run(selecting, shorter) == (selecting, Seq::<Action>::empty()));
        assert(Seq::<Action>::empty().push(Action::Write(bytes[0])) =~= writes(bytes, 1));
    } else {
        lemma_writing(selecting, command, (taken - 1) as nat);
        assert(writes(bytes, taken).push(Action::Write(bytes[taken as int])) =~= writes(
            bytes,
            taken + 1,
        ));
    }
}

/// A transaction from the assertion of chip-select to its end.
///
/// When chip-select is asserted, the bytes of the frame are written in
/// order up to and including the first that the bus does not take, and none
/// after it. Chip-select is then deasserted, once, whether a write has
/// failed or not. The result is the fault of the bus if a write failed, else
/// the fault of the select line if it could not be deasserted, else
/// success. Whatever the result, the polarity has flipped once and the
/// driver is idle.
pub proof fn lemma_transaction(selecting: State, command: Command, taken: nat, released: bool)
    requires
        selecting.wf(),
        selecting.stage == Stage::Selecting(command),
    ensures
        run(
            selecting,
            outcomes_of(selecting.frame_for(command).len(), taken, released),
        ) == (
            selecting.concluded(),
            writes(
                selecting.frame_for(command),
                tried(selecting.frame_for(command).len(), taken),
            ) + seq![
                Action::DeassertSelect,
                Action::Done(
                    verdict(write_fault(selecting.frame_for(command).len(), taken), released),
                ),
            ],
        ),
{
    let bytes = selecting.frame_for(command);
    let len = bytes.len();
    let fault = write_fault(len, taken);
    let close = seq![Action::DeassertSelect, Action::Done(verdict(fault, released))];
    lemma_frame_for(selecting, command);
    let count = tried(len, taken);
    let script = Seq::new(count, |i: int| true);
    lemma_writing(selecting, command, (count - 1) as nat);
    lemma_run_push(selecting, script, taken >= len);
    lemma_run_push(selecting, script.push(taken >= len), released);
    assert(outcomes_of(len, taken, released) =~= script.push(taken >= len).push(released));
    assert(writes(bytes, count).push(Action::DeassertSelect).push(
        Action::Done(verdict(fault, released)),
    ) =~= writes(bytes, count) + close);
}

/// A transaction whose chip-select cannot be asserted ends there: no byte
/// is written, the polarity stays as it was, and the select line is
/// reported to have failed.
pub proof fn lemma_select_failure(selecting: State, command: Command)
    requires
        selecting.stage == Stage::Selecting(command),
    ensures
        selecting.step(false) == (selecting.at(Stage::Idle), Action::Done(Err(Fault::Control))),
{
}

/// Setting up drives the select line to its idle level and goes on to
/// clear the panel; if the line cannot be driven, setting up has failed
/// and nothing else is tried.
pub proof fn lemma_set_up(fresh: State, ok: bool)
    requires
        fresh.stage == Stage::Resetting,
    ensures
        fresh.step(ok) == (if ok {
            (fresh.begin(Command::Clear), Action::AssertSelect)
        } else {
            (fresh.at(Stage::Idle), Action::Done(Err(Fault::Control)))
        }),
{
}

/// A transaction between two idle times: whatever the bus does, the driver
/// ends well formed and idle with the polarity flipped, and the first byte
/// it writes is the command byte at the polarity it had.
pub proof fn lemma_transfer(state: State, transfer: Transfer)
    requires
        state.wf(),
        state.idle(),
    ensures
        transaction(state, transfer).0 == state.begin(transfer.command).concluded(),
        transaction(state, transfer).0.wf(),
        transaction(state, transfer).1[0] == Action::Write(
            state.controller.command_byte_of(transfer.command, state.polarity),
        ),
{
    let selecting = state.begin(transfer.command);
    lemma_step_wf(state, true, transfer.command);
    lemma_frame_for(selecting, transfer.command);
    lemma_transaction(selecting, transfer.command, transfer.taken, transfer.released);
}

/// A transaction in which nothing fails writes the whole frame, command
/// byte first, between one assertion and one deassertion of chip-select.
pub proof fn lemma_clean_transfer(state: State, command: Command)
    requires
        state.wf(),
        state.idle(),
    ensures
        transaction(state, Transfer::clean(state, command)) == (
            state.begin(command).concluded(),
            writes(state.frame_for(command), state.frame_for(command).len()) + seq![
                Action::DeassertSelect,
                Action::Done(Ok(())),
            ],
        ),
{
    let selecting = state.begin(command);
    lemma_step_wf(state, true, command);
    lemma_transaction(selecting, command, state.frame_for(command).len(), true);
    match command {
        Command::Clear => {},
        Command::Write => {},
    }
}

/// A refresh in which nothing fails sends the command byte, then one block
/// for each row in order from the top, then a single zero byte, and nothing
/// else. With addressed lines, the block of row `y` is the row number
/// `y + 1`, the packed pixels of the row, and a zero byte; with sequential
/// framing the row number is left out. The buffer stays as it was.
pub proof fn lemma_refresh(state: State, y: int)
    requires
        state.wf(),
        state.idle(),
        0 <= y < state.bitmap.height,
    ensures
        transaction(state, Transfer::clean(state, Command::Write)).1 == writes(
            state.frame_for(Command::Write),
            state.frame_for(Command::Write).len(),
        ) + seq![Action::DeassertSelect, Action::Done(Ok(()))],
        transaction(state, Transfer::clean(state, Command::Write)).0.bitmap == state.bitmap,
        state.frame_for(Command::Write).len() == 2 + state.bitmap.height * line_len(
            state.controller.framing,
            state.bitmap.width,
        ),
        state.frame_for(Command::Write)[0] == state.controller.command_byte_of(
            Command::Write,
            state.polarity,
        ),
        state.frame_for(Command::Write).subrange(
            1 + y * line_len(state.controller.framing, state.bitmap.width),
            1 + (y + 1) * line_len(state.controller.framing, state.bitmap.width),
        ) == line(state.controller.framing, state.bitmap, y),
        state.frame_for(Command::Write).last() == 0u8,
{
    lemma_clean_transfer(state, Command::Write);
    lemma_frame_layout(
        state.controller.framing,
        state.controller.command_byte_of(Command::Write, state.polarity),
        state.bitmap,
        y,
    );
}

/// A clear in which nothing fails leaves every pixel of the buffer light
/// and sends the command byte and one zero byte.
pub proof fn lemma_clear(state: State)
    requires
        state.wf(),
        state.idle(),
    ensures
        transaction(state, Transfer::clean(state, Command::Clear)).1 == seq![
            Action::Write(state.controller.command_byte_of(Command::Clear, state.polarity)),
            Action::Write(0u8),
            Action::DeassertSelect,
            Action::Done(Ok(())),
        ],
        transaction(state, Transfer::clean(state, Command::Clear)).0.bitmap
            == state.bitmap.cleared(),
{
    lemma_clean_transfer(state, Command::Clear);
    let bytes = state.frame_for(Command::Clear);
    assert(writes(bytes, 2) + seq![Action::DeassertSelect, Action::Done(Ok(()))] =~= seq![
        Action::Write(state.controller.command_byte_of(Command::Clear, state.polarity)),
        Action::Write(0u8),
        Action::DeassertSelect,
        Action::Done(Ok(())),
    ]);
}

/// After any number of transactions the driver is well formed and idle,
/// and its polarity has flipped once for each of them.
pub proof fn lemma_after_all(state: State, transfers: Seq<Transfer>)
    requires
        state.wf(),
        state.idle(),
    ensures
        after_all(state, transfers).wf(),
        after_all(state, transfers).idle(),
        after_all(state, transfers).controller == state.controller,
        after_all(state, transfers).polarity == (if transfers.len() % 2 == 0 {
            state.polarity
        } else {
            !state.polarity
        }),
    decreases transfers.len(),
{
    if transfers.len() > 0 {
        lemma_after_all(state, transfers.drop_last());
        lemma_transfer(after_all(state, transfers.drop_last()), transfers.last());
    }
}

/// The polarity bit alternates from each command byte to the next, whether
/// the commands clear or write and whatever becomes of the bytes after
/// them. Of any number of transactions in a row, the last opens with the
/// command byte for its command, and that byte carries the polarity that
/// the driver had at first if the number is odd, and the other one if it is
/// even.
pub proof fn lemma_polarity_alternates(state: State, transfers: Seq<Transfer>)
    requires
        state.wf(),
        state.idle(),
        transfers.len() > 0,
    ensures
        ({
            let polarity = if transfers.len() % 2 == 1 {
                state.polarity
            } else {
                !state.polarity
            };
            let byte = state.controller.command_byte_of(transfers.last().command, polarity);
            &&& transaction(after_all(state, transfers.drop_last()), transfers.last()).1[0]
                == Action::Write(byte)
            &&& state.controller.polarity_of(byte) == polarity
            &&& after_all(state, transfers).polarity == !polarity
        }),
{
    let before = after_all(state, transfers.drop_last());
    lemma_after_all(state, transfers.drop_last());
    lemma_after_all(state, transfers);
    lemma_transfer(before, transfers.last());
    state.controller.lemma_command_byte(transfers.last().command, before.polarity);
}

} // verus!
