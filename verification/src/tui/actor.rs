//! The task that owns the Modbus connection: what it is asked, what it
//! answers, and what it does next.
//!
//! The GTC Ethernet module only tolerates a single Modbus TCP session, so one
//! task serialises all device traffic. It accepts periodic ticks, which poll
//! the device, and write commands, each of which is answered and, if it
//! succeeded, followed by a poll so the screen shows the new value without
//! waiting for the next tick.

use crate::app::{self, set_value, AppError, AppFault};
use crate::domain::{RegisterDef, Snapshot};
use crate::modbus::{exchanged, Bus, ModbusClient};
use crate::text;
use crate::tui::control::{self, ControlId};
use vstd::prelude::*;

verus! {

/// What the view asks of the task.
#[derive(Debug)]
pub enum ActorCommand {
    /// Write a value to the register of a control.
    Write {
        /// The control the value was set with.
        control: ControlId,
        /// The register to write.
        register: String,
        /// The value as text.
        value: String,
    },
    /// Stop.
    Shutdown,
}

/// What an [`ActorCommand`] stands for.
pub enum Command {
    Write { control: ControlId, register: Seq<char>, value: Seq<char> },
    Shutdown,
}

impl View for ActorCommand {
    type V = Command;

    open spec fn view(&self) -> Command {
        match *self {
            ActorCommand::Write { control, register, value } => Command::Write {
                control,
                register: register@,
                value: value@,
            },
            ActorCommand::Shutdown => Command::Shutdown,
        }
    }
}

/// The outcome of the latest poll. Times are nanoseconds since the program
/// started.
#[derive(Debug, Clone)]
pub enum PollUpdate {
    /// No poll has completed yet.
    Pending,
    /// The poll succeeded.
    Polled {
        /// What was read.
        snapshot: Snapshot,
        /// When.
        polled_at: u64,
    },
    /// The poll failed.
    Failed {
        /// Why.
        message: String,
        /// When.
        failed_at: u64,
    },
}

/// The answer to a write command.
#[derive(Debug)]
pub struct WriteResult {
    /// The control the value was set with.
    pub control: ControlId,
    /// The value that was written.
    pub value: String,
    /// Whether the write succeeded, or why not.
    pub outcome: Result<(), String>,
    /// When, in nanoseconds since the program started.
    pub completed_at: u64,
}

/// What happened to the task.
#[derive(Debug)]
pub enum ActorEvent {
    /// A command arrived.
    Command(ActorCommand),
    /// Nobody can send commands any more.
    CommandsClosed,
    /// It is time for a poll.
    Tick,
    /// A write was carried out and answered.
    Written {
        /// Whether it succeeded.
        succeeded: bool,
    },
    /// The outcome of a poll was handed to the view.
    Published {
        /// Whether a tick asked for the poll.
        after_tick: bool,
        /// Whether anybody was there to take it.
        delivered: bool,
    },
}

/// What an [`ActorEvent`] stands for.
pub enum Happening {
    Command(Command),
    CommandsClosed,
    Tick,
    Written { succeeded: bool },
    Published { after_tick: bool, delivered: bool },
}

impl View for ActorEvent {
    type V = Happening;

    open spec fn view(&self) -> Happening {
        match *self {
            ActorEvent::Command(command) => Happening::Command(command@),
            ActorEvent::CommandsClosed => Happening::CommandsClosed,
            ActorEvent::Tick => Happening::Tick,
            ActorEvent::Written { succeeded } => Happening::Written { succeeded },
            ActorEvent::Published { after_tick, delivered } => Happening::Published {
                after_tick,
                delivered,
            },
        }
    }
}

/// What the task does next.
#[derive(Debug)]
pub enum ActorAction {
    /// Wait for a command or a tick.
    Wait,
    /// Carry out a write and answer it.
    Write {
        /// The control the value was set with.
        control: ControlId,
        /// The register to write.
        register: String,
        /// The value as text.
        value: String,
    },
    /// Poll the device and hand the outcome to the view.
    Poll {
        /// Whether a tick asked for it.
        after_tick: bool,
    },
    /// Stop.
    Stop,
}

/// What an [`ActorAction`] stands for.
pub enum Step {
    Wait,
    Write { control: ControlId, register: Seq<char>, value: Seq<char> },
    Poll { after_tick: bool },
    Stop,
}

impl View for ActorAction {
    type V = Step;

    open spec fn view(&self) -> Step {
        match *self {
            ActorAction::Wait => Step::Wait,
            ActorAction::Write { control, register, value } => Step::Write {
                control,
                register: register@,
                value: value@,
            },
            ActorAction::Poll { after_tick } => Step::Poll { after_tick },
            ActorAction::Stop => Step::Stop,
        }
    }
}

/// What the task does upon an event.
pub open spec fn step_for(event: Happening) -> Step {
    match event {
        Happening::Command(Command::Write { control, register, value }) => Step::Write {
            control,
            register,
            value,
        },
        Happening::Command(Command::Shutdown) | Happening::CommandsClosed => Step::Stop,
        Happening::Tick => Step::Poll { after_tick: true },
        Happening::Written { succeeded } => if succeeded {
            Step::Poll { after_tick: false }
        } else {
            Step::Wait
        },
        Happening::Published { after_tick, delivered } => if after_tick && !delivered {
            Step::Stop
        } else {
            Step::Wait
        },
    }
}

/// Decide what the task does next: a write that succeeded is followed by a
/// poll, and the task stops on request, when nobody can send commands any
/// more, or when nobody takes the outcome of a periodic poll.
pub fn next_action(event: ActorEvent) -> (r: ActorAction)
    ensures
        r@ == step_for(event@),
{
    match event {
        ActorEvent::Command(ActorCommand::Write { control, register, value }) => {
            ActorAction::Write { control, register, value }
        },
        ActorEvent::Command(ActorCommand::Shutdown) => ActorAction::Stop,
        ActorEvent::CommandsClosed => ActorAction::Stop,
        ActorEvent::Tick => ActorAction::Poll { after_tick: true },
        ActorEvent::Written { succeeded } => {
            if succeeded {
                ActorAction::Poll { after_tick: false }
            } else {
                ActorAction::Wait
            }
        },
        ActorEvent::Published { after_tick, delivered } => {
            if after_tick && !delivered {
                ActorAction::Stop
            } else {
                ActorAction::Wait
            }
        },
    }
}

/// The error of an operation in one line.
pub fn short_error(err: &AppError) -> (r: String)
    ensures
        r@ == err@.text(),
{
    err.to_string()
}

/// The error of an operation in words.
pub open spec fn in_words(r: Result<(), AppFault>) -> Result<(), Seq<char>> {
    match r {
        Ok(_) => Ok(()),
        Err(fault) => Err(fault.text()),
    }
}

/// Carry out a write command.
///
/// # Errors
/// Returns the error of [`set_value`] in words.
pub fn run_write<C: ModbusClient>(
    client: &mut Bus<C>,
    registers: &[RegisterDef],
    register: &str,
    value: &str,
) -> (r: Result<(), String>)
    ensures
        app::extends(old(client).log(), final(client).log()),
        exchanged(
            old(client).inner(),
            app::added(old(client).log(), final(client).log()),
            final(client).inner(),
        ),
        exists|outcome: Result<(), AppFault>|
            control::message_of(r) == #[trigger] in_words(outcome) && app::sets(
                registers@,
                register@,
                value@,
                app::added(old(client).log(), final(client).log()),
                outcome,
            ),
{
    let written = set_value(client, registers, register, value);
    let ghost outcome = text::outcome(written);
    let r = match written {
        Ok(()) => Ok(()),
        Err(error) => Err(short_error(&error)),
    };
    assert(control::message_of(r) == in_words(outcome));
    r
}

/// The update for the outcome of a poll, as the view shows it.
pub open spec fn update_shows(
    update: PollUpdate,
    r: Result<Seq<crate::domain::SnapshotEntry>, AppFault>,
    now: u64,
) -> bool {
    match r {
        Ok(entries) => update matches PollUpdate::Polled { snapshot, polled_at }
            && snapshot.entries@ == entries && polled_at == now,
        Err(fault) => update matches PollUpdate::Failed { message, failed_at } && message@
            == fault.text() && failed_at == now,
    }
}

/// The update for the outcome of a poll that completed at `now`.
pub fn poll_update(polled: Result<Snapshot, AppError>, now: u64) -> (r: PollUpdate)
    ensures
        update_shows(r, app::polled(polled), now),
{
    match polled {
        Ok(snapshot) => PollUpdate::Polled { snapshot, polled_at: now },
        Err(error) => PollUpdate::Failed { message: short_error(&error), failed_at: now },
    }
}

/// Only a write that succeeded makes the task poll out of turn, and no write
/// makes it stop.
pub proof fn law_poll_follows_a_successful_write(succeeded: bool)
    ensures
        step_for(Happening::Written { succeeded }) is Poll <==> succeeded,
        step_for(Happening::Written { succeeded }) !is Stop,
{
}

/// The task writes nothing but what it is asked to write: no tick and no
/// outcome makes it write.
pub proof fn law_actor_writes_only_on_command(event: Happening)
    ensures
        step_for(event) matches Step::Write { control, register, value } ==> event
            == Happening::Command(Command::Write { control, register, value }),
{
}

/// The task stops exactly on request, when commands can no longer arrive, and
/// when a periodic poll finds nobody to take its outcome.
pub proof fn law_actor_stops_only_when_done(event: Happening)
    ensures
        step_for(event) is Stop <==> (event == Happening::Command(Command::Shutdown) || event
            == Happening::CommandsClosed || event == (Happening::Published {
            after_tick: true,
            delivered: false,
        })),
{
}


/// The task carries out exactly the write it was sent, polls upon a tick and
/// upon a write that succeeded, stops on request, when nobody can send
/// commands any more and when nobody takes the outcome of a periodic poll, and
/// waits otherwise.
pub proof fn law_actor_steps(event: Happening)
    ensures
        match step_for(event) {
            Step::Write { control, register, value } => event == Happening::Command(
                Command::Write { control, register, value },
            ),
            Step::Poll { after_tick } => if after_tick {
                event == Happening::Tick
            } else {
                event == (Happening::Written { succeeded: true })
            },
            Step::Stop => event == Happening::Command(Command::Shutdown) || event
                == Happening::CommandsClosed || event == (Happening::Published {
                after_tick: true,
                delivered: false,
            }),
            Step::Wait => match event {
                Happening::Written { succeeded } => !succeeded,
                Happening::Published { after_tick, delivered } => delivered || !after_tick,
                _ => false,
            },
        },
{
}

/// A write that succeeded is answered as such, and a failed one with the words
/// of its error.
pub proof fn law_write_is_answered_in_words(fault: AppFault)
    ensures
        in_words(Ok(())) == Ok::<(), Seq<char>>(()),
        in_words(Err(fault)) == Err::<(), Seq<char>>(fault.text()),
{
}


/// What a command, an event and an action stand for is all that they hold.
pub proof fn law_commands_as_they_are(
    control: ControlId,
    register: String,
    value: String,
    succeeded: bool,
    after_tick: bool,
    delivered: bool,
)
    ensures
        (ActorCommand::Write { control, register, value })@ == (Command::Write {
            control,
            register: register@,
            value: value@,
        }),
        ActorCommand::Shutdown@ == Command::Shutdown,
        ActorEvent::Command(ActorCommand::Write { control, register, value })@
            == Happening::Command(
            Command::Write { control, register: register@, value: value@ },
        ),
        (ActorEvent::Written { succeeded })@ == (Happening::Written { succeeded }),
        (ActorEvent::Published { after_tick, delivered })@ == (Happening::Published {
            after_tick,
            delivered,
        }),
        (ActorAction::Write { control, register, value })@ == (Step::Write {
            control,
            register: register@,
            value: value@,
        }),
        (ActorAction::Poll { after_tick })@ == (Step::Poll { after_tick }),
{
}

/// The view is handed what a poll read, or why it failed in words, and when.
pub proof fn law_poll_outcome_is_handed_on(
    update: PollUpdate,
    r: Result<Seq<crate::domain::SnapshotEntry>, AppFault>,
    now: u64,
)
    requires
        update_shows(update, r, now),
    ensures
        match update {
            PollUpdate::Polled { snapshot, polled_at } => r == Ok::<
                Seq<crate::domain::SnapshotEntry>,
                AppFault,
            >(snapshot.entries@) && polled_at == now,
            PollUpdate::Failed { message, failed_at } => r matches Err(fault) && message@
                == fault.text() && failed_at == now,
            PollUpdate::Pending => false,
        },
{
}

} // verus!
