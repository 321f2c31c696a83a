//! The state of the interactive view and how it reacts: to keys, to the
//! outcome of writes and of saving the settings, and to the passing of time.
//!
//! A [`UiState`] stands for a [`Ui`]; every reaction is stated as a function
//! on that model. What has to be done outside (sending a command, saving the
//! settings, leaving) is returned as an [`Action`]. Times are nanoseconds
//! since the program started.

use crate::config::{
    Config, ConfigError, ConfigFault, Endpoint, PollConfig, UiPreferences,
};
use crate::domain::{
    self, temperature_text, ModeSelection, RegisterDef, RegisterValue, Snapshot, SnapshotEntry,
};
use crate::status::{self, build_status, Status, StatusView};
use crate::text::{self, decimal_text, digit, same, trim};
use crate::tui::actor::{ActorCommand, Command, PollUpdate, WriteResult};
use crate::tui::control::{
    self, active_controls, apply_step, next_mode_in_cycle, validate_buffer, ControlId, EditBuffer,
};
use crate::tui::keys::{Key, KeyCode};
use crate::tui::settings::{
    self, handle_settings_edit_key, handle_settings_row_key, Settings, SettingsState,
};
use vstd::prelude::*;

verus! {

/// How long a toast is shown, in nanoseconds.
pub const TOAST_LIFESPAN: u64 = 3_000_000_000;

// ---------------------------------------------------------------------
// State
// ---------------------------------------------------------------------

/// What the keys act on.
#[derive(Debug)]
pub enum UiMode {
    /// The rows of the main view.
    Normal,
    /// The inline editor.
    Editing(EditBuffer),
    /// The Settings screen.
    Settings(SettingsState),
}

/// A write that has not been answered yet.
#[derive(Debug)]
pub struct PendingWrite {
    /// The control the value was set with.
    pub control: ControlId,
    /// The value.
    pub value: String,
}

/// Whether a toast tells of success or of failure.
#[derive(Debug, Clone, Copy, PartialEq, Eq, Structural)]
pub enum ToastKind {
    /// Something worked.
    Success,
    /// Something went wrong.
    Error,
}

/// A message that is shown for a while.
#[derive(Debug)]
pub struct Toast {
    /// What it says.
    pub text: String,
    /// Success or failure.
    pub kind: ToastKind,
    /// Since when it is shown.
    pub shown_at: u64,
}

/// The state of the interactive view.
#[derive(Debug)]
pub struct UiState {
    /// The configuration.
    pub cfg: Config,
    /// The outcome of the latest poll.
    pub update: PollUpdate,
    /// The controls on the screen.
    pub controls: Vec<ControlId>,
    /// The selected control.
    pub selection: usize,
    /// What the keys act on.
    pub mode: UiMode,
    /// The message being shown.
    pub toast: Option<Toast>,
    /// The write being carried out.
    pub pending_write: Option<PendingWrite>,
    /// The poll interval in seconds.
    pub interval_seconds: u64,
}

/// What a [`UiMode`] stands for.
pub enum Mode {
    Normal,
    Editing { control: ControlId, text: Seq<char> },
    Settings(Settings),
}

/// What a [`Toast`] stands for.
pub struct Note {
    pub text: Seq<char>,
    pub kind: ToastKind,
    pub shown_at: u64,
}

/// What a [`PendingWrite`] stands for.
pub struct Pending {
    pub control: ControlId,
    pub value: Seq<char>,
}

/// What a [`UiState`] stands for.
#[verifier::ext_equal]
pub struct Ui {
    pub modbus: Endpoint,
    pub poll: PollConfig,
    pub ui: UiPreferences,
    pub registers: Seq<RegisterDef>,
    pub update: PollUpdate,
    pub controls: Seq<ControlId>,
    pub selection: nat,
    pub mode: Mode,
    pub toast: Option<Note>,
    pub pending: Option<Pending>,
    pub interval_seconds: u64,
}

impl View for UiMode {
    type V = Mode;

    open spec fn view(&self) -> Mode {
        match *self {
            UiMode::Normal => Mode::Normal,
            UiMode::Editing(buf) => Mode::Editing { control: buf.control, text: buf.text@ },
            UiMode::Settings(settings) => Mode::Settings(settings@),
        }
    }
}

impl View for Toast {
    type V = Note;

    open spec fn view(&self) -> Note {
        Note { text: self.text@, kind: self.kind, shown_at: self.shown_at }
    }
}

impl View for PendingWrite {
    type V = Pending;

    open spec fn view(&self) -> Pending {
        Pending { control: self.control, value: self.value@ }
    }
}

impl View for UiState {
    type V = Ui;

    open spec fn view(&self) -> Ui {
        Ui {
            modbus: self.cfg.modbus@,
            poll: self.cfg.poll,
            ui: self.cfg.ui@,
            registers: self.cfg.registers@,
            update: self.update,
            controls: self.controls@,
            selection: self.selection as nat,
            mode: self.mode@,
            toast: match self.toast {
                Some(toast) => Some(toast@),
                None => None,
            },
            pending: match self.pending_write {
                Some(pending) => Some(pending@),
                None => None,
            },
            interval_seconds: self.interval_seconds,
        }
    }
}

impl Ui {
    /// The invariant of the view: the controls are those that are offered,
    /// the selection is one of them, only the selected control is edited and
    /// it is none that is toggled, and the Settings screen is well-formed.
    pub open spec fn well_formed(self) -> bool {
        &&& self.controls == control::offered_controls(self.registers, self.ui)
        &&& self.selection < self.controls.len() || self.selection == 0
        &&& match self.mode {
            Mode::Normal => true,
            Mode::Editing { control, text } => {
                self.selected() == Some(control) && !control.toggles()
            },
            Mode::Settings(settings) => {
                settings.well_formed() && settings.items == settings::settings_rows(self.registers)
            },
        }
    }

    /// The selected control.
    pub open spec fn selected(self) -> Option<ControlId> {
        if self.selection < self.controls.len() {
            Some(self.controls[self.selection as int])
        } else {
            None
        }
    }

    /// What the latest poll read, if it succeeded.
    pub open spec fn entries(self) -> Option<Seq<SnapshotEntry>> {
        match self.update {
            PollUpdate::Polled { snapshot, .. } => Some(snapshot.entries@),
            _ => None,
        }
    }

    /// The decoded status of what the latest poll read.
    pub open spec fn status(self) -> Option<Status> {
        match self.entries() {
            Some(entries) => Some(status::status_of(entries)),
            None => None,
        }
    }

    /// The text typed for `control`, if it is being edited.
    pub open spec fn typed(self, control: ControlId) -> Option<Seq<char>> {
        match self.mode {
            Mode::Editing { control: edited, text } => if edited == control {
                Some(text)
            } else {
                None
            },
            _ => None,
        }
    }

    /// The value being written for `control`.
    pub open spec fn pending_value(self, control: ControlId) -> Option<Seq<char>> {
        match self.pending {
            Some(pending) => if pending.control == control {
                Some(pending.value)
            } else {
                None
            },
            None => None,
        }
    }
}

/// The view before the first poll.
pub open spec fn fresh(
    modbus: Endpoint,
    poll: PollConfig,
    ui: UiPreferences,
    registers: Seq<RegisterDef>,
    interval_seconds: u64,
) -> Ui {
    Ui {
        modbus,
        poll,
        ui,
        registers,
        update: PollUpdate::Pending,
        controls: control::offered_controls(registers, ui),
        selection: 0,
        mode: Mode::Normal,
        toast: None,
        pending: None,
        interval_seconds,
    }
}

/// The view with its controls brought up to date and the selection kept on
/// one of them.
pub open spec fn refreshed(ui: Ui) -> Ui {
    let controls = control::offered_controls(ui.registers, ui.ui);
    Ui {
        controls,
        selection: if ui.selection < controls.len() {
            ui.selection
        } else if controls.len() > 0 {
            (controls.len() - 1) as nat
        } else {
            0
        },
        ..ui
    }
}

/// The toast is over by `now`.
pub open spec fn expired(note: Note, now: u64) -> bool {
    now - note.shown_at > TOAST_LIFESPAN
}

/// The view without a toast that is over.
pub open spec fn pruned(ui: Ui, now: u64) -> Ui {
    Ui {
        toast: match ui.toast {
            Some(note) => if expired(note, now) {
                None
            } else {
                Some(note)
            },
            None => None,
        },
        ..ui
    }
}

impl UiState {
    /// The view before the first poll.
    pub fn new(cfg: Config, interval_seconds: u64) -> (r: UiState)
        ensures
            r@ == fresh(cfg.modbus@, cfg.poll, cfg.ui@, cfg.registers@, interval_seconds),
            r@.well_formed(),
    {
        let controls = active_controls(cfg.registers.as_slice(), &cfg.ui);
        UiState {
            cfg,
            update: PollUpdate::Pending,
            controls,
            selection: 0,
            mode: UiMode::Normal,
            toast: None,
            pending_write: None,
            interval_seconds,
        }
    }

    /// Bring the controls up to date after a change of the preferences.
    pub fn refresh_controls(&mut self)
        ensures
            final(self)@ == refreshed(old(self)@),
    {
        self.controls = active_controls(self.cfg.registers.as_slice(), &self.cfg.ui);
        if self.selection >= self.controls.len() {
            self.selection = if self.controls.len() > 0 {
                self.controls.len() - 1
            } else {
                0
            };
        }
    }

    /// Take over the outcome of a poll.
    pub fn set_update(&mut self, update: PollUpdate)
        ensures
            final(self)@ == (Ui { update, ..old(self)@ }),
            old(self)@.well_formed() ==> final(self)@.well_formed(),
    {
        self.update = update;
    }

    /// What the latest poll read, if it succeeded.
    pub fn current_snapshot(&self) -> (r: Option<&Snapshot>)
        ensures
            match self@.entries() {
                Some(entries) => r matches Some(snapshot) && snapshot.entries@ == entries,
                None => r is None,
            },
    {
        match &self.update {
            PollUpdate::Polled { snapshot, .. } => Some(snapshot),
            _ => None,
        }
    }

    /// The decoded status of what the latest poll read.
    pub fn current_view(&self) -> (r: Option<StatusView>)
        ensures
            match self@.status() {
                Some(status) => r matches Some(view) && view@ == status,
                None => r is None,
            },
    {
        match self.current_snapshot() {
            Some(snapshot) => Some(build_status(snapshot)),
            None => None,
        }
    }

    /// The selected control.
    pub fn selected_control(&self) -> (r: Option<ControlId>)
        ensures
            r == self@.selected(),
    {
        if self.selection < self.controls.len() {
            Some(self.controls[self.selection])
        } else {
            None
        }
    }

    /// Whether `control` is selected.
    pub fn is_selected(&self, control: ControlId) -> (r: bool)
        ensures
            r == (self@.selected() == Some(control)),
    {
        match self.selected_control() {
            Some(selected) => selected == control,
            None => false,
        }
    }

    /// The editor of `control`, if it is open.
    pub fn editing(&self, control: ControlId) -> (r: Option<&EditBuffer>)
        ensures
            match self@.typed(control) {
                Some(typed) => r matches Some(buf) && buf.control == control && buf.text@ == typed,
                None => r is None,
            },
    {
        match &self.mode {
            UiMode::Editing(buf) => {
                if buf.control == control {
                    Some(buf)
                } else {
                    None
                }
            },
            _ => None,
        }
    }

    /// The write being carried out for `control`.
    pub fn pending_for(&self, control: ControlId) -> (r: Option<&PendingWrite>)
        ensures
            match self@.pending_value(control) {
                Some(value) => r matches Some(pending) && pending.control == control
                    && pending.value@ == value,
                None => r is None,
            },
    {
        match &self.pending_write {
            Some(pending) => {
                if pending.control == control {
                    Some(pending)
                } else {
                    None
                }
            },
            None => None,
        }
    }

    /// Take the toast down once it has been shown long enough.
    pub fn prune_toast(&mut self, now: u64)
        ensures
            final(self)@ == pruned(old(self)@, now),
            old(self)@.well_formed() ==> final(self)@.well_formed(),
    {
        let over = match &self.toast {
            Some(toast) => now > toast.shown_at && now - toast.shown_at > TOAST_LIFESPAN,
            None => false,
        };
        if over {
            self.toast = None;
        }
    }
}

// ---------------------------------------------------------------------
// Actions
// ---------------------------------------------------------------------

/// What has to be done outside upon a key.
#[derive(Debug)]
pub enum Action {
    /// Nothing.
    Nothing,
    /// Leave the interactive view.
    Quit,
    /// Send a command to the task that owns the connection; if it cannot be
    /// sent, tell so with [`write_not_sent`].
    Send(ActorCommand),
    /// Save the settings of the configuration and tell the outcome with
    /// [`settings_saved`].
    Save {
        /// Whether the connection or the poll interval changed.
        connection_changed: bool,
    },
}

/// What an [`Action`] stands for.
pub enum Deed {
    Nothing,
    Quit,
    Send(Command),
    Save { connection_changed: bool },
}

impl View for Action {
    type V = Deed;

    open spec fn view(&self) -> Deed {
        match *self {
            Action::Nothing => Deed::Nothing,
            Action::Quit => Deed::Quit,
            Action::Send(command) => Deed::Send(command@),
            Action::Save { connection_changed } => Deed::Save { connection_changed },
        }
    }
}

/// The command that writes `value` with `control`.
pub open spec fn write_command(control: ControlId, value: Seq<char>) -> Command {
    Command::Write { control, register: control.register_name(), value }
}

/// The view once `value` is on its way, and the command to send.
pub open spec fn dispatched(ui: Ui, control: ControlId, value: Seq<char>) -> (Ui, Deed) {
    (
        Ui { pending: Some(Pending { control, value }), ..ui },
        Deed::Send(write_command(control, value)),
    )
}

fn dispatch_write(state: &mut UiState, control: ControlId, value: String) -> (r: Action)
    ensures
        (final(state)@, r@) == dispatched(old(state)@, control, value@),
{
    state.pending_write = Some(PendingWrite { control, value: value.clone() });
    Action::Send(
        ActorCommand::Write { control, register: control.register().to_owned(), value },
    )
}

/// The view after a command could not be sent.
pub open spec fn unsent(ui: Ui, now: u64) -> Ui {
    Ui {
        pending: None,
        toast: Some(
            Note { text: "actor channel closed"@, kind: ToastKind::Error, shown_at: now },
        ),
        ..ui
    }
}

/// Tell the user that a command could not be sent.
pub fn write_not_sent(state: &mut UiState, now: u64)
    ensures
        final(state)@ == unsent(old(state)@, now),
        old(state)@.well_formed() ==> final(state)@.well_formed(),
{
    state.pending_write = None;
    state.toast = Some(
        Toast { text: "actor channel closed".to_owned(), kind: ToastKind::Error, shown_at: now },
    );
}

/// The message about a finished write.
pub open spec fn write_note(
    control: ControlId,
    value: Seq<char>,
    outcome: Result<(), Seq<char>>,
    now: u64,
) -> Note {
    match outcome {
        Ok(_) => Note {
            text: control.name() + ": "@ + value,
            kind: ToastKind::Success,
            shown_at: now,
        },
        Err(message) => Note {
            text: control.name() + ": "@ + message,
            kind: ToastKind::Error,
            shown_at: now,
        },
    }
}

/// The view after the answer to a write: the write is no longer pending if it
/// is the one that was answered, and the outcome is shown.
pub open spec fn answered(
    ui: Ui,
    control: ControlId,
    value: Seq<char>,
    outcome: Result<(), Seq<char>>,
    now: u64,
) -> Ui {
    Ui {
        pending: match ui.pending {
            Some(pending) => if pending.control == control && pending.value == value {
                None
            } else {
                Some(pending)
            },
            None => None,
        },
        toast: Some(write_note(control, value, outcome, now)),
        ..ui
    }
}

/// Take over the answer to a write.
pub fn handle_write_result(state: &mut UiState, result: WriteResult)
    ensures
        final(state)@ == answered(
            old(state)@,
            result.control,
            result.value@,
            control::message_of(result.outcome),
            result.completed_at,
        ),
        old(state)@.well_formed() ==> final(state)@.well_formed(),
{
    let done = match &state.pending_write {
        Some(pending) => pending.control == result.control && same(
            pending.value.as_str(),
            result.value.as_str(),
        ),
        None => false,
    };
    if done {
        state.pending_write = None;
    }
    let mut text = result.control.label().to_owned();
    text.append(": ");
    let toast = match result.outcome {
        Ok(()) => {
            text.append(result.value.as_str());
            Toast { text, kind: ToastKind::Success, shown_at: result.completed_at }
        },
        Err(message) => {
            text.append(message.as_str());
            Toast { text, kind: ToastKind::Error, shown_at: result.completed_at }
        },
    };
    state.toast = Some(toast);
}

// ---------------------------------------------------------------------
// The main view
// ---------------------------------------------------------------------

/// The text of a fan entry that holds an integer.
pub open spec fn integer_text(entry: Option<SnapshotEntry>) -> Seq<char> {
    match entry {
        Some(e) => match e.value {
            RegisterValue::U16(v) => text::decimal(v as nat),
            _ => Seq::empty(),
        },
        None => Seq::empty(),
    }
}

/// The text that the editor of a control starts with: the value that was
/// read, or nothing.
pub open spec fn starting_text(control: ControlId, entries: Option<Seq<SnapshotEntry>>) -> Seq<
    char,
> {
    match entries {
        None => Seq::empty(),
        Some(entries) => match control {
            ControlId::Setpoint => match status::temperature_in(
                domain::first_named(entries, "temp_setpoint"@),
            ) {
                Some(t) => domain::tenths_text(t as int),
                None => Seq::empty(),
            },
            ControlId::SupplyFan => integer_text(
                domain::first_named(entries, "fan_speed_supply"@),
            ),
            ControlId::ExhaustFan => integer_text(
                domain::first_named(entries, "fan_speed_exhaust"@),
            ),
            ControlId::Power | ControlId::Mode => Seq::empty(),
        },
    }
}

fn integer_entry_text(snapshot: &Snapshot, name: &str) -> (r: String)
    ensures
        r@ == integer_text(domain::first_named(snapshot.entries@, name@)),
{
    match snapshot.first(name) {
        Some(e) => match e.value {
            RegisterValue::U16(v) => decimal_text(v as u64),
            _ => String::new(),
        },
        None => String::new(),
    }
}

/// The entries of an optional snapshot.
pub open spec fn entries_of(snapshot: Option<&Snapshot>) -> Option<Seq<SnapshotEntry>> {
    match snapshot {
        Some(s) => Some(s.entries@),
        None => None,
    }
}

/// The text that the editor of a control starts with.
pub fn current_value_for(control: ControlId, snapshot: Option<&Snapshot>) -> (r: String)
    ensures
        r@ == starting_text(control, entries_of(snapshot)),
{
    let snapshot = match snapshot {
        Some(snapshot) => snapshot,
        None => {
            return String::new();
        },
    };
    match control {
        ControlId::Setpoint => match snapshot.first("temp_setpoint") {
            Some(e) => match e.value {
                RegisterValue::Temperature(t) => temperature_text(t),
                _ => String::new(),
            },
            None => String::new(),
        },
        ControlId::SupplyFan => integer_entry_text(snapshot, "fan_speed_supply"),
        ControlId::ExhaustFan => integer_entry_text(snapshot, "fan_speed_exhaust"),
        ControlId::Power | ControlId::Mode => String::new(),
    }
}

/// The value that toggling a control writes: the power is turned over, the
/// mode goes to the next one of the cycle. What is not known counts as off
/// and as Ventilation.
pub open spec fn toggled_value(ui: Ui, control: ControlId) -> Option<Seq<char>> {
    match control {
        ControlId::Power => {
            let on = match ui.status() {
                Some(status) => match status.state {
                    Some(state) => state.power_on,
                    None => false,
                },
                None => false,
            };
            Some(
                if on {
                    "0"@
                } else {
                    "1"@
                },
            )
        },
        ControlId::Mode => {
            let current = match ui.status() {
                Some(status) => match status.mode_selection {
                    Some(mode) => mode,
                    None => ModeSelection::Ventilation,
                },
                None => ModeSelection::Ventilation,
            };
            Some(control::next_mode(current, ui.ui.modes).name())
        },
        ControlId::Setpoint | ControlId::SupplyFan | ControlId::ExhaustFan => None,
    }
}

/// The view after a control was toggled.
pub open spec fn toggled(ui: Ui, control: ControlId) -> (Ui, Deed) {
    match toggled_value(ui, control) {
        Some(value) => dispatched(ui, control, value),
        None => (ui, Deed::Nothing),
    }
}

fn toggle_control(state: &mut UiState, control: ControlId) -> (r: Action)
    ensures
        (final(state)@, r@) == toggled(old(state)@, control),
{
    let view = state.current_view();
    let value = match control {
        ControlId::Power => {
            let currently_on = match view {
                Some(view) => match view.state {
                    Some(device) => device.power_on,
                    None => false,
                },
                None => false,
            };
            if currently_on {
                "0".to_owned()
            } else {
                "1".to_owned()
            }
        },
        ControlId::Mode => {
            let current = match view {
                Some(view) => match view.mode_selection {
                    Some(mode) => mode,
                    None => ModeSelection::Ventilation,
                },
                None => ModeSelection::Ventilation,
            };
            next_mode_in_cycle(current, state.cfg.ui.modes).label().to_owned()
        },
        ControlId::Setpoint | ControlId::SupplyFan | ControlId::ExhaustFan => {
            return Action::Nothing;
        },
    };
    dispatch_write(state, control, value)
}

/// The view after a key in the main view, other than those that leave it.
pub open spec fn normal_pressed(ui: Ui, key: Key) -> (Ui, Deed) {
    match key.code {
        KeyCode::Up => (
            Ui {
                selection: if ui.selection > 0 {
                    (ui.selection - 1) as nat
                } else {
                    0
                },
                ..ui
            },
            Deed::Nothing,
        ),
        KeyCode::Down => (
            if ui.selection + 1 < ui.controls.len() {
                Ui { selection: ui.selection + 1, ..ui }
            } else {
                ui
            },
            Deed::Nothing,
        ),
        KeyCode::Char(c) => (
            if c == 's' || c == 'S' {
                Ui {
                    mode: Mode::Settings(
                        settings::opened(ui.modbus, ui.poll, ui.ui, ui.registers),
                    ),
                    ..ui
                }
            } else {
                ui
            },
            Deed::Nothing,
        ),
        KeyCode::Enter => match ui.selected() {
            None => (ui, Deed::Nothing),
            Some(control) => if control.toggles() {
                toggled(ui, control)
            } else {
                (
                    Ui {
                        mode: Mode::Editing { control, text: starting_text(control, ui.entries()) },
                        ..ui
                    },
                    Deed::Nothing,
                )
            },
        },
        _ => (ui, Deed::Nothing),
    }
}

fn handle_normal_key(state: &mut UiState, key: &Key) -> (r: Action)
    requires
        old(state)@.mode is Normal,
    ensures
        (final(state)@, r@) == normal_pressed(old(state)@, *key),
        old(state)@.well_formed() ==> final(state)@.well_formed(),
{
    match key.code {
        KeyCode::Up => {
            if state.selection > 0 {
                state.selection = state.selection - 1;
            }
        },
        KeyCode::Down => {
            if state.controls.len() > 0 && state.selection < state.controls.len() - 1 {
                state.selection = state.selection + 1;
            }
        },
        KeyCode::Char(c) => {
            if c == 's' || c == 'S' {
                open_settings(state);
            }
        },
        KeyCode::Enter => {
            let control = match state.selected_control() {
                Some(control) => control,
                None => {
                    return Action::Nothing;
                },
            };
            if control.is_toggle() {
                return toggle_control(state, control);
            }
            let text = current_value_for(control, state.current_snapshot());
            state.mode = UiMode::Editing(EditBuffer { control, text });
        },
        _ => {},
    }
    Action::Nothing
}

// ---------------------------------------------------------------------
// The inline editor
// ---------------------------------------------------------------------

/// The character can be typed into a number.
pub open spec fn types_number(c: char) -> bool {
    text::is_digit(c) || c == '.' || c == '-'
}

/// The view after a key in the inline editor of `control` that holds `typed`.
pub open spec fn edit_pressed(
    ui: Ui,
    control: ControlId,
    typed: Seq<char>,
    key: Key,
    now: u64,
) -> (Ui, Deed) {
    let closed = Ui { mode: Mode::Normal, ..ui };
    let stepped = |up: bool|
        Ui {
            mode: Mode::Editing {
                control,
                text: control::stepped(
                    control,
                    crate::decimal::number(text::trimmed(typed)),
                    up,
                ),
            },
            ..ui
        };
    match key.code {
        KeyCode::Esc => (closed, Deed::Nothing),
        KeyCode::Char(c) => if key.interrupts() {
            (closed, Deed::Quit)
        } else if types_number(c) {
            (
                Ui { mode: Mode::Editing { control, text: typed.push(c) }, ..ui },
                Deed::Nothing,
            )
        } else {
            (ui, Deed::Nothing)
        },
        KeyCode::Enter => match control::checked(control, typed) {
            Ok(_) => dispatched(closed, control, text::trimmed(typed)),
            Err(message) => (
                Ui {
                    toast: Some(Note { text: message, kind: ToastKind::Error, shown_at: now }),
                    ..ui
                },
                Deed::Nothing,
            ),
        },
        KeyCode::Up => (stepped(true), Deed::Nothing),
        KeyCode::Down => (stepped(false), Deed::Nothing),
        KeyCode::Backspace => (
            Ui { mode: Mode::Editing { control, text: settings::shortened(typed) }, ..ui },
            Deed::Nothing,
        ),
        KeyCode::Other => (ui, Deed::Nothing),
    }
}

fn handle_edit_key(state: &mut UiState, buf: EditBuffer, key: &Key, now: u64) -> (r: Action)
    requires
        old(state)@.mode is Normal,
    ensures
        (final(state)@, r@) == edit_pressed(
            (Ui {
                mode: Mode::Editing { control: buf.control, text: buf.text@ },
                ..old(state)@
            }),
            buf.control,
            buf.text@,
            *key,
            now,
        ),
        old(state)@.well_formed() && old(state)@.selected() == Some(buf.control)
            && !buf.control.toggles() ==> final(state)@.well_formed(),
{
    let mut buf = buf;
    let control = buf.control;
    match key.code {
        KeyCode::Esc => {
            return Action::Nothing;
        },
        KeyCode::Char(c) => {
            if key.is_interrupt() {
                return Action::Quit;
            }
            if digit(c) || c == '.' || c == '-' {
                buf.text.push(c);
            }
        },
        KeyCode::Enter => match validate_buffer(control, buf.text.as_str()) {
            Ok(()) => {
                let value = trim(buf.text.as_str()).to_owned();
                return dispatch_write(state, control, value);
            },
            Err(message) => {
                state.toast = Some(
                    Toast { text: message, kind: ToastKind::Error, shown_at: now },
                );
            },
        },
        KeyCode::Up => {
            apply_step(&mut buf, true);
        },
        KeyCode::Down => {
            apply_step(&mut buf, false);
        },
        KeyCode::Backspace => {
            let _ = buf.text.pop();
        },
        KeyCode::Other => {},
    }
    state.mode = UiMode::Editing(buf);
    Action::Nothing
}

// ---------------------------------------------------------------------
// The Settings screen
// ---------------------------------------------------------------------

/// Open the Settings screen on a draft of the live configuration.
pub fn open_settings(state: &mut UiState)
    ensures
        final(state)@ == (Ui {
            mode: Mode::Settings(
                settings::opened(
                    old(state)@.modbus,
                    old(state)@.poll,
                    old(state)@.ui,
                    old(state)@.registers,
                ),
            ),
            ..old(state)@
        }),
        old(state)@.well_formed() ==> final(state)@.well_formed(),
{
    let draft = SettingsState::open(&state.cfg);
    state.mode = UiMode::Settings(draft);
}

/// The connection or the poll interval differs between the draft and the live
/// configuration.
pub open spec fn connection_differs(ui: Ui, draft: Settings) -> bool {
    ui.modbus != draft.modbus || ui.poll != draft.poll
}

/// The view after the Settings screen is closed: the draft is live, and is to
/// be saved.
pub open spec fn settings_closed(ui: Ui, draft: Settings) -> (Ui, Deed) {
    (
        refreshed(
            Ui { modbus: draft.modbus, poll: draft.poll, ui: draft.ui, mode: Mode::Normal, ..ui },
        ),
        Deed::Save { connection_changed: connection_differs(ui, draft) },
    )
}

/// Commit the Settings draft: apply the changes live and ask for them to be
/// saved. Connection changes are flagged, since they take effect on the next
/// launch.
fn close_settings(state: &mut UiState, draft: SettingsState) -> (r: Action)
    requires
        old(state)@.mode is Normal,
    ensures
        (final(state)@, r@) == settings_closed(old(state)@, draft@),
        final(state)@.well_formed(),
{
    let connection_changed = !same(draft.draft_modbus.host.as_str(), state.cfg.modbus.host.as_str())
        || draft.draft_modbus.port != state.cfg.modbus.port || draft.draft_modbus.unit_id
        != state.cfg.modbus.unit_id || draft.draft_modbus.timeout_ms != state.cfg.modbus.timeout_ms
        || draft.draft_poll.interval_seconds != state.cfg.poll.interval_seconds;
    proof {
        let (a, b) = (state.cfg.modbus@, draft.draft_modbus@);
        if !connection_changed {
            assert(a =~= b);
        }
    }
    state.cfg.modbus = draft.draft_modbus;
    state.cfg.poll = draft.draft_poll;
    state.cfg.ui = draft.draft_ui;
    state.refresh_controls();
    Action::Save { connection_changed }
}

/// The message about saving the settings.
pub open spec fn save_note(
    connection_changed: bool,
    outcome: Result<(), ConfigFault>,
    now: u64,
) -> Note {
    match outcome {
        Ok(_) => Note {
            text: if connection_changed {
                "settings saved — restart to apply connection changes"@
            } else {
                "settings saved"@
            },
            kind: ToastKind::Success,
            shown_at: now,
        },
        Err(fault) => Note {
            text: "settings save failed: "@ + fault.text(),
            kind: ToastKind::Error,
            shown_at: now,
        },
    }
}

/// The message for settings that could not be saved.
pub fn settings_save_error(err: &ConfigError) -> (r: String)
    ensures
        r@ == "settings save failed: "@ + err@.text(),
{
    let mut out = "settings save failed: ".to_owned();
    out.append(err.to_string().as_str());
    out
}

/// Show the outcome of saving the settings.
pub fn settings_saved(
    state: &mut UiState,
    connection_changed: bool,
    outcome: Result<(), ConfigError>,
    now: u64,
)
    ensures
        final(state)@ == (Ui {
            toast: Some(save_note(connection_changed, text::outcome(outcome), now)),
            ..old(state)@
        }),
        old(state)@.well_formed() ==> final(state)@.well_formed(),
{
    let toast = match outcome {
        Ok(()) => {
            let text = if connection_changed {
                "settings saved — restart to apply connection changes".to_owned()
            } else {
                "settings saved".to_owned()
            };
            Toast { text, kind: ToastKind::Success, shown_at: now }
        },
        Err(err) => Toast {
            text: settings_save_error(&err),
            kind: ToastKind::Error,
            shown_at: now,
        },
    };
    state.toast = Some(toast);
}

/// The key closes the Settings screen.
pub open spec fn closes_settings(key: Key) -> bool {
    key.code == KeyCode::Esc || key.code == KeyCode::Char('s') || key.code == KeyCode::Char('S')
}

/// The view after a key on the Settings screen that holds `draft`.
pub open spec fn settings_pressed(ui: Ui, draft: Settings, key: Key) -> (Ui, Deed) {
    if draft.editing is Some {
        (Ui { mode: Mode::Settings(settings::edit_pressed(draft, key)), ..ui }, Deed::Nothing)
    } else if closes_settings(key) {
        settings_closed(ui, draft)
    } else {
        (Ui { mode: Mode::Settings(settings::row_pressed(draft, key)), ..ui }, Deed::Nothing)
    }
}

fn handle_settings_key(state: &mut UiState, draft: SettingsState, key: &Key) -> (r: Action)
    requires
        old(state)@.mode is Normal,
        draft@.editable(),
    ensures
        (final(state)@, r@) == settings_pressed(
            (Ui { mode: Mode::Settings(draft@), ..old(state)@ }),
            draft@,
            *key,
        ),
        old(state)@.well_formed() && draft@.well_formed() && draft@.items
            == settings::settings_rows(old(state)@.registers) ==> final(state)@.well_formed(),
{
    let mut draft = draft;
    if draft.editing.is_some() {
        handle_settings_edit_key(&mut draft, key);
    } else {
        let closes = match key.code {
            KeyCode::Esc => true,
            KeyCode::Char(c) => c == 's' || c == 'S',
            _ => false,
        };
        if closes {
            return close_settings(state, draft);
        }
        handle_settings_row_key(&mut draft, key);
    }
    state.mode = UiMode::Settings(draft);
    Action::Nothing
}

// ---------------------------------------------------------------------
// Keys
// ---------------------------------------------------------------------

/// The view after a key.
pub open spec fn pressed(ui: Ui, key: Key, now: u64) -> (Ui, Deed) {
    if !key.press {
        (ui, Deed::Nothing)
    } else {
        match ui.mode {
            Mode::Normal => if key.quits() {
                (ui, Deed::Quit)
            } else {
                normal_pressed(ui, key)
            },
            Mode::Editing { control, text } => edit_pressed(ui, control, text, key, now),
            Mode::Settings(draft) => settings_pressed(ui, draft, key),
        }
    }
}

/// Handle a key. What it returns has to be done by the caller.
pub fn handle_key(state: &mut UiState, key: &Key, now: u64) -> (r: Action)
    requires
        old(state)@.mode matches Mode::Settings(draft) ==> draft.editable(),
    ensures
        (final(state)@, r@) == pressed(old(state)@, *key, now),
        old(state)@.well_formed() ==> final(state)@.well_formed(),
{
    if !key.press {
        return Action::Nothing;
    }
    let ghost before = state@;
    let mut mode = UiMode::Normal;
    std::mem::swap(&mut mode, &mut state.mode);
    assert(state@ == (Ui { mode: Mode::Normal, ..before }));
    match mode {
        UiMode::Normal => {
            if key.is_global_quit() {
                return Action::Quit;
            }
            handle_normal_key(state, key)
        },
        UiMode::Editing(buf) => {
            let ghost (c, t) = (buf.control, buf.text@);
            assert((Ui { mode: Mode::Editing { control: c, text: t }, ..state@ }) == before);
            handle_edit_key(state, buf, key, now)
        },
        UiMode::Settings(draft) => {
            assert((Ui { mode: Mode::Settings(draft@), ..state@ }) == before);
            handle_settings_key(state, draft, key)
        },
    }
}

// ---------------------------------------------------------------------
// Laws
// ---------------------------------------------------------------------

/// Only Ctrl-C leaves the program from the inline editor, only `q`, Esc and
/// Ctrl-C leave it from the main view, and nothing leaves it from the
/// Settings screen.
pub proof fn law_only_quit_keys_leave(ui: Ui, key: Key, now: u64)
    ensures
        pressed(ui, key, now).1 == Deed::Quit <==> key.press && match ui.mode {
            Mode::Normal => key.quits(),
            Mode::Editing { .. } => key.interrupts(),
            Mode::Settings(_) => false,
        },
{
}

/// A key writes nothing but the register of the selected control, and that
/// control can be written. A number that is typed was checked before, and is
/// sent without the white space around it.
pub proof fn law_writes_go_to_the_selected_control(ui: Ui, key: Key, now: u64)
    requires
        ui.well_formed(),
        pressed(ui, key, now).1 is Send,
    ensures
        pressed(ui, key, now).1 matches Deed::Send(
            Command::Write { control, register, value },
        ) && ui.selected() == Some(control) && register == control.register_name()
            && control::can_write(ui.registers, register) && match ui.mode {
            Mode::Editing { control: edited, text } => edited == control && control::checked(
                control,
                text,
            ) is Ok && value == text::trimmed(text),
            _ => control.toggles(),
        },
{
    control::law_shown_controls_are_writable(ui.registers, ui.ui, ui.selection as int);
}

/// Nothing is written but upon Enter.
pub proof fn law_only_enter_writes(ui: Ui, key: Key, now: u64)
    requires
        pressed(ui, key, now).1 is Send,
    ensures
        key.press && key.code == KeyCode::Enter,
{
}

/// A write that was sent is pending for its control, and the answer to it
/// ends that.
pub proof fn law_pending_write_ends_with_its_answer(
    ui: Ui,
    control: ControlId,
    value: Seq<char>,
    outcome: Result<(), Seq<char>>,
    now: u64,
)
    ensures
        dispatched(ui, control, value).0.pending_value(control) == Some(value),
        answered(dispatched(ui, control, value).0, control, value, outcome, now).pending is None,
{
}

/// Opening the Settings screen and closing it at once changes no setting and
/// reports no change of the connection.
pub proof fn law_unchanged_settings_stay(ui: Ui, key: Key)
    requires
        ui.well_formed(),
        ui.mode is Normal,
        closes_settings(key),
    ensures
        ({
            let draft = settings::opened(ui.modbus, ui.poll, ui.ui, ui.registers);
            settings_pressed(Ui { mode: Mode::Settings(draft), ..ui }, draft, key) == (
                ui,
                Deed::Save { connection_changed: false },
            )
        }),
{
    let draft = settings::opened(ui.modbus, ui.poll, ui.ui, ui.registers);
    let opened = Ui { mode: Mode::Settings(draft), ..ui };
    assert(settings_pressed(opened, draft, key).0 =~= ui);
}

/// Closing the Settings screen applies the preferences at once, keeps what
/// was read and the interval in use, and reports a change of the connection
/// exactly if the endpoint or the interval differs.
pub proof fn law_closing_applies_the_preferences(ui: Ui, draft: Settings)
    ensures
        ({
            let (next, deed) = settings_closed(ui, draft);
            &&& next.ui == draft.ui
            &&& next.controls == control::offered_controls(ui.registers, draft.ui)
            &&& next.update == ui.update
            &&& next.interval_seconds == ui.interval_seconds
            &&& deed == (Deed::Save {
                connection_changed: draft.modbus != ui.modbus || draft.poll != ui.poll,
            })
        }),
{
}

/// Leaving the inline editor with Esc changes nothing but the mode, and
/// writes nothing.
pub proof fn law_cancelled_edit_writes_nothing(ui: Ui, key: Key, now: u64)
    requires
        ui.mode is Editing,
        key.press,
        key.code == KeyCode::Esc,
    ensures
        pressed(ui, key, now) == (Ui { mode: Mode::Normal, ..ui }, Deed::Nothing),
{
}

/// Toggling the power asks for off where the device is on, and for on where
/// it is off.
pub proof fn law_power_toggle_asks_for_the_other_state(on: Ui, off: Ui)
    requires
        on.status() matches Some(s) && s.state matches Some(d) && d.power_on,
        off.status() matches Some(s) && s.state matches Some(d) && !d.power_on,
    ensures
        toggled_value(on, ControlId::Power) == Some("0"@),
        toggled_value(off, ControlId::Power) == Some("1"@),
{
}

/// Toggling the mode asks for one of the modes the user has enabled.
pub proof fn law_mode_toggle_asks_for_an_enabled_mode(ui: Ui)
    ensures
        exists|mode: ModeSelection|
            control::mode_options(ui.ui.modes).contains(mode) && toggled_value(ui, ControlId::Mode)
                == Some(#[trigger] mode.name()),
{
    let current = match ui.status() {
        Some(status) => match status.mode_selection {
            Some(mode) => mode,
            None => ModeSelection::Ventilation,
        },
        None => ModeSelection::Ventilation,
    };
    control::law_mode_cycle_stays_enabled(current, ui.ui.modes);
    let mode = control::next_mode(current, ui.ui.modes);
    assert(toggled_value(ui, ControlId::Mode) == Some(mode.name()));
}


// ---------------------------------------------------------------------
// What the keys are for
// ---------------------------------------------------------------------

/// The latest poll succeeded with `entries`.
pub open spec fn polled_with(ui: Ui, entries: Seq<SnapshotEntry>) -> bool {
    ui.update matches PollUpdate::Polled { snapshot, polled_at } && snapshot.entries@ == entries
}

/// The entry `i` is the first of its name.
pub open spec fn first_of_its_name(entries: Seq<SnapshotEntry>, i: int) -> bool {
    &&& 0 <= i < entries.len()
    &&& forall|j: int| 0 <= j < i ==> (#[trigger] entries[j]).name@ != entries[i].name@
}

/// Where the latest poll read the mode `mode`, toggling the mode asks for the
/// nearest enabled mode that comes next in the circle Ventilation, Heating,
/// Cooling, Climate, by its label; a mode that is not enabled counts as
/// Ventilation. So with every mode enabled ventilation leads to heating,
/// heating to cooling, cooling to auto and auto to ventilation, and where
/// another mode is enabled an enabled mode is never asked for again.
pub proof fn law_mode_toggle_asks_for_the_successor(
    ui: Ui,
    entries: Seq<SnapshotEntry>,
    i: int,
    mode: ModeSelection,
    other: ModeSelection,
)
    requires
        polled_with(ui, entries),
        first_of_its_name(entries, i),
        entries[i].name@ == "mode_system"@,
        entries[i].value == RegisterValue::Mode(mode),
    ensures
        ({
            let vis = ui.ui.modes;
            let asked = toggled_value(ui, ControlId::Mode);
            let from = if control::enabled(mode, vis) {
                mode
            } else {
                ModeSelection::Ventilation
            };
            &&& exists|next: ModeSelection|
                asked == Some(#[trigger] next.name()) && control::enabled(next, vis) && (
                control::enabled(other, vis) ==> control::places_on(from, next)
                    <= control::places_on(from, other))
            &&& control::enabled(other, vis) && other != from ==> asked != Some(from.name())
            &&& vis.heating && vis.cooling && vis.climate ==> asked == Some(
                match mode {
                    ModeSelection::Ventilation => "heating"@,
                    ModeSelection::Heating => "cooling"@,
                    ModeSelection::Cooling => "auto"@,
                    ModeSelection::Auto => "ventilation"@,
                },
            )
        }),
{
    domain::law_entry_is_found_by_its_name(entries, i);
    let vis = ui.ui.modes;
    let next = control::next_mode(mode, vis);
    control::law_mode_cycle_goes_to_the_successor(mode, vis, other);
    control::law_mode_cycle_goes_to_the_successor(mode, vis, ModeSelection::Ventilation);
    control::law_mode_cycle_goes_to_the_successor(mode, vis, ModeSelection::Heating);
    control::law_mode_cycle_goes_to_the_successor(mode, vis, ModeSelection::Cooling);
    control::law_mode_cycle_goes_to_the_successor(mode, vis, ModeSelection::Auto);
    assert(toggled_value(ui, ControlId::Mode) == Some(next.name()));
    reveal_strlit("ventilation");
    reveal_strlit("heating");
    reveal_strlit("cooling");
    reveal_strlit("auto");
    let (v, h, c, a) = ("ventilation"@, "heating"@, "cooling"@, "auto"@);
    assert(v[0] == 'v' && h[0] == 'h' && c[0] == 'c' && a[0] == 'a');
}

/// Where the mode is not known, because no poll succeeded or because no entry
/// has the name of the mode register, toggling asks for the mode behind
/// Ventilation; where the power is not known, toggling asks for on.
pub proof fn law_toggle_without_a_reading(ui: Ui, entries: Seq<SnapshotEntry>)
    requires
        !(ui.update is Polled) || polled_with(ui, entries) && (forall|i: int|
            0 <= i < entries.len() ==> (#[trigger] entries[i]).name@ != "mode_system"@
                && entries[i].name@ != "state_word_0"@),
    ensures
        toggled_value(ui, ControlId::Mode) == Some(
            control::next_mode(ModeSelection::Ventilation, ui.ui.modes).name(),
        ),
        toggled_value(ui, ControlId::Power) == Some("1"@),
{
    domain::law_search_finds_the_first(entries, "mode_system"@);
    domain::law_search_finds_the_first(entries, "state_word_0"@);
}

/// Where the latest poll read the state word `word`, toggling the power asks
/// for off exactly if the word is odd, and for on otherwise.
pub proof fn law_power_toggle_follows_the_state_word(
    ui: Ui,
    entries: Seq<SnapshotEntry>,
    i: int,
    word: u16,
)
    requires
        polled_with(ui, entries),
        first_of_its_name(entries, i),
        entries[i].name@ == "state_word_0"@,
        status::stands_for(entries[i].value, word),
    ensures
        toggled_value(ui, ControlId::Power) == Some(
            if word % 2 == 1 {
                "0"@
            } else {
                "1"@
            },
        ),
{
    status::law_status_reads_the_named_registers(entries, i, word, 0, ModeSelection::Auto);
}

/// In the main view, Enter on the power or the mode sends the value that
/// toggling asks for to the register of that control, and shows it as being
/// written; Enter on another control opens its editor and sends nothing; Enter
/// without a selected control does nothing.
pub proof fn law_enter_acts_on_the_selected_control(ui: Ui, key: Key, now: u64)
    requires
        ui.mode is Normal,
        key.press,
        key.code == KeyCode::Enter,
    ensures
        ({
            let (after, deed) = pressed(ui, key, now);
            if ui.selection >= ui.controls.len() {
                after == ui && deed == Deed::Nothing
            } else {
                let control = ui.controls[ui.selection as int];
                match control {
                    ControlId::Power | ControlId::Mode => toggled_value(
                        ui,
                        control,
                    ) matches Some(value) && after == (Ui {
                        pending: Some(Pending { control, value }),
                        ..ui
                    }) && deed == Deed::Send(
                        Command::Write {
                            control,
                            register: if control == ControlId::Power {
                                "power"@
                            } else {
                                "mode_system"@
                            },
                            value,
                        },
                    ),
                    _ => deed == Deed::Nothing && after == (Ui {
                        mode: Mode::Editing {
                            control,
                            text: starting_text(control, ui.entries()),
                        },
                        ..ui
                    }),
                }
            }
        }),
{
}

/// The editor opens on the value of the control's register that the latest
/// poll read first, as it is displayed, or empty: a temperature for the
/// setpoint, an unsigned number for a fan.
pub proof fn law_editor_opens_on_what_was_read(
    ui: Ui,
    entries: Seq<SnapshotEntry>,
    i: int,
    control: ControlId,
)
    requires
        polled_with(ui, entries),
        first_of_its_name(entries, i),
        entries[i].name@ == match control {
            ControlId::Setpoint => "temp_setpoint"@,
            ControlId::SupplyFan => "fan_speed_supply"@,
            _ => "fan_speed_exhaust"@,
        },
        control == ControlId::Setpoint || control == ControlId::SupplyFan || control
            == ControlId::ExhaustFan,
    ensures
        starting_text(control, ui.entries()) == match entries[i].value {
            RegisterValue::Temperature(t) if control == ControlId::Setpoint => entries[i].value.text(),
            RegisterValue::U16(v) if control != ControlId::Setpoint => entries[i].value.text(),
            _ => Seq::empty(),
        },
        starting_text(control, None) == Seq::<char>::empty(),
{
    domain::law_entry_is_found_by_its_name(entries, i);
}

/// In the inline editor, Esc closes it; Ctrl-C leaves; a digit, a point and a
/// minus sign are typed, other characters are not; Backspace takes the last
/// character away; the arrows step the number; none of these sends anything.
/// Enter sends the typed text, without the white space around it, to the
/// register of the edited control and closes the editor, if the number is
/// accepted, and shows what is wrong and keeps the editor open if it is not.
pub proof fn law_keys_in_the_inline_editor(
    ui: Ui,
    control: ControlId,
    typed: Seq<char>,
    key: Key,
    now: u64,
)
    requires
        ui.mode == (Mode::Editing { control, text: typed }),
        key.press,
    ensures
        ({
            let (after, deed) = pressed(ui, key, now);
            let editing = |t: Seq<char>|
                after == (Ui { mode: Mode::Editing { control, text: t }, ..ui }) && deed
                    == Deed::Nothing;
            match key.code {
                KeyCode::Esc => after == (Ui { mode: Mode::Normal, ..ui }) && deed == Deed::Nothing,
                KeyCode::Char(c) => if key.control && (c == 'c' || c == 'C') {
                    after == (Ui { mode: Mode::Normal, ..ui }) && deed == Deed::Quit
                } else if '0' <= c <= '9' || c == '.' || c == '-' {
                    editing(typed.push(c))
                } else {
                    editing(typed)
                },
                KeyCode::Backspace => editing(
                    if typed.len() > 0 {
                        typed.take(typed.len() - 1)
                    } else {
                        typed
                    },
                ),
                KeyCode::Up => editing(
                    control::stepped(control, crate::decimal::number(text::trimmed(typed)), true),
                ),
                KeyCode::Down => editing(
                    control::stepped(control, crate::decimal::number(text::trimmed(typed)), false),
                ),
                KeyCode::Enter => match control::checked(control, typed) {
                    Ok(_) => {
                        &&& after.mode is Normal
                        &&& after.pending == Some(Pending { control, value: text::trimmed(typed) })
                        &&& after == (Ui { mode: after.mode, pending: after.pending, ..ui })
                        &&& deed matches Deed::Send(
                            Command::Write { control: to, register, value },
                        ) && to == control && value == text::trimmed(typed) && register
                            == match control {
                            ControlId::Power => "power"@,
                            ControlId::Mode => "mode_system"@,
                            ControlId::Setpoint => "temp_setpoint"@,
                            ControlId::SupplyFan => "fan_speed_supply"@,
                            ControlId::ExhaustFan => "fan_speed_exhaust"@,
                        }
                    },
                    Err(message) => {
                        &&& deed == Deed::Nothing
                        &&& after == (Ui { toast: after.toast, ..ui })
                        &&& after.toast matches Some(note) && note.text == message && note.kind
                            == ToastKind::Error && note.shown_at == now
                    },
                },
                KeyCode::Other => editing(typed),
            }
        }),
{
    if typed.len() > 0 {
        assert(typed.drop_last() =~= typed.take(typed.len() - 1));
    }
}

/// In the main view, the arrows move the selection by one within the controls,
/// `s` and `S` open the Settings screen on a draft that is the live
/// configuration, with the cursor on the first row, and no key but Enter and
/// those that leave does anything else. A key that goes up does nothing.
pub proof fn law_keys_in_the_main_view(ui: Ui, key: Key, now: u64)
    requires
        ui.mode is Normal,
    ensures
        ({
            let (after, deed) = pressed(ui, key, now);
            &&& !key.press ==> after == ui && deed == Deed::Nothing
            &&& key.press ==> match key.code {
                KeyCode::Up => after == (Ui { selection: after.selection, ..ui }) && deed
                    == Deed::Nothing && after.selection == if ui.selection == 0 {
                    0
                } else {
                    ui.selection - 1
                },
                KeyCode::Down => after == (Ui { selection: after.selection, ..ui }) && deed
                    == Deed::Nothing && after.selection == if ui.selection + 1
                    < ui.controls.len() {
                    ui.selection + 1
                } else {
                    ui.selection
                },
                KeyCode::Esc => after == ui && deed == Deed::Quit,
                KeyCode::Char(c) => if c == 's' || c == 'S' {
                    &&& deed == Deed::Nothing
                    &&& after == (Ui { mode: after.mode, ..ui })
                    &&& after.mode matches Mode::Settings(draft) && draft.modbus == ui.modbus
                        && draft.poll == ui.poll && draft.ui == ui.ui && draft.cursor == 0
                        && draft.editing is None && draft.items == settings::settings_rows(
                        ui.registers,
                    )
                } else {
                    after == ui && (deed == Deed::Quit || deed == Deed::Nothing)
                },
                KeyCode::Backspace | KeyCode::Other => after == ui && deed == Deed::Nothing,
                KeyCode::Enter => true,
            }
        }),
{
}

/// On the Settings screen, while no field is edited, Esc, `s` and `S` close it:
/// the draft becomes the live configuration, what was read and the catalogue
/// stay, the controls follow the preferences, and the settings are to be saved,
/// with the connection reported as changed exactly if the host, the port, the
/// unit, the timeout or the interval differs.
pub proof fn law_closing_makes_the_draft_live(ui: Ui, draft: Settings, key: Key, now: u64)
    requires
        ui.mode == Mode::Settings(draft),
        draft.editing is None,
        key.press,
        key.code == KeyCode::Esc || key.code == KeyCode::Char('s') || key.code == KeyCode::Char(
            'S',
        ),
    ensures
        ({
            let (after, deed) = pressed(ui, key, now);
            &&& after.modbus == draft.modbus
            &&& after.poll == draft.poll
            &&& after.ui == draft.ui
            &&& after.mode is Normal
            &&& after.registers == ui.registers
            &&& after.update == ui.update
            &&& after.toast == ui.toast
            &&& after.pending == ui.pending
            &&& after.interval_seconds == ui.interval_seconds
            &&& after.controls == control::offered_controls(ui.registers, draft.ui)
            &&& ui.selection < after.controls.len() ==> after.selection == ui.selection
            &&& ui.selection >= after.controls.len() ==> after.selection == if after.controls.len()
                == 0 {
                0
            } else {
                after.controls.len() - 1
            }
            &&& deed == (Deed::Save {
                connection_changed: draft.modbus.host != ui.modbus.host || draft.modbus.port
                    != ui.modbus.port || draft.modbus.unit_id != ui.modbus.unit_id
                    || draft.modbus.timeout_ms != ui.modbus.timeout_ms
                    || draft.poll.interval_seconds != ui.poll.interval_seconds,
            })
        }),
{
    if draft.modbus.host == ui.modbus.host && draft.modbus.port == ui.modbus.port
        && draft.modbus.unit_id == ui.modbus.unit_id && draft.modbus.timeout_ms
        == ui.modbus.timeout_ms {
        assert(draft.modbus =~= ui.modbus);
    }
}

/// On the Settings screen, any other key acts on the field editor if it is open
/// and on the rows if it is not, and changes nothing but the screen.
pub proof fn law_keys_stay_on_the_settings_screen(ui: Ui, draft: Settings, key: Key, now: u64)
    requires
        ui.mode == Mode::Settings(draft),
        key.press,
        draft.editing is Some || !(key.code == KeyCode::Esc || key.code == KeyCode::Char('s')
            || key.code == KeyCode::Char('S')),
    ensures
        pressed(ui, key, now) == (
            Ui {
                mode: Mode::Settings(
                    if draft.editing is Some {
                        settings::edit_pressed(draft, key)
                    } else {
                        settings::row_pressed(draft, key)
                    },
                ),
                ..ui
            },
            Deed::Nothing,
        ),
{
}

/// An interval entered on the Settings screen is live and saved once the screen
/// is closed, and is reported as a change of the connection exactly if it
/// differs from the one before or the endpoint was changed.
pub proof fn law_entered_interval_is_saved(
    ui: Ui,
    draft: Settings,
    i: nat,
    typed: Seq<char>,
    n: u64,
    enter: Key,
    esc: Key,
    now: u64,
)
    requires
        ui.mode == Mode::Settings(draft),
        draft.editing == Some((i, typed)),
        i < draft.items.len(),
        draft.items[i as int] is PollInterval,
        text::trimmed(typed) == text::decimal(n as nat),
        n >= 1,
        enter.press && enter.code == KeyCode::Enter,
        esc.press && esc.code == KeyCode::Esc,
    ensures
        ({
            let entered = pressed(ui, enter, now).0;
            let (after, deed) = pressed(entered, esc, now);
            &&& after.poll.interval_seconds == n
            &&& after.modbus == draft.modbus
            &&& after.ui == draft.ui
            &&& deed == (Deed::Save {
                connection_changed: n != ui.poll.interval_seconds || draft.modbus != ui.modbus,
            })
        }),
{
    settings::law_printed_number_is_taken(draft, i, typed, n as nat);
    settings::law_commit_takes_the_typed_value(draft, i, typed);
    let entered = pressed(ui, enter, now).0;
    let next = settings::committed(draft);
    assert(entered.mode == Mode::Settings(next));
    law_closing_makes_the_draft_live(entered, next, esc, now);
    if draft.modbus.host == ui.modbus.host && draft.modbus.port == ui.modbus.port
        && draft.modbus.unit_id == ui.modbus.unit_id && draft.modbus.timeout_ms
        == ui.modbus.timeout_ms {
        assert(draft.modbus =~= ui.modbus);
    }
}

/// The answer to a write ends the pending write of the same control and value
/// and no other, and shows the control with the value, or with what went wrong;
/// a command that could not be sent is no longer pending and is told as an
/// error. Nothing else changes.
pub proof fn law_answers_are_shown(
    ui: Ui,
    control: ControlId,
    value: Seq<char>,
    message: Seq<char>,
    now: u64,
)
    ensures
        ({
            let done = answered(ui, control, value, Ok(()), now);
            let failed = answered(ui, control, value, Err(message), now);
            let lost = unsent(ui, now);
            let same_write = ui.pending matches Some(p) && p.control == control && p.value == value;
            let rest = |after: Ui|
                after == (Ui { pending: after.pending, toast: after.toast, ..ui });
            &&& rest(done) && rest(failed) && rest(lost)
            &&& done.pending == if same_write {
                None
            } else {
                ui.pending
            }
            &&& failed.pending == done.pending
            &&& lost.pending is None
            &&& done.toast matches Some(note) && note.kind == ToastKind::Success && note.shown_at
                == now && note.text == control.name() + ": "@ + value
            &&& failed.toast matches Some(note) && note.kind == ToastKind::Error && note.shown_at
                == now && note.text == control.name() + ": "@ + message
            &&& lost.toast matches Some(note) && note.kind == ToastKind::Error && note.shown_at
                == now && note.text == "actor channel closed"@
        }),
{
}

/// A message is shown for three seconds, then it goes; nothing else changes.
pub proof fn law_messages_last_three_seconds(ui: Ui, now: u64)
    ensures
        ui.toast matches Some(note) ==> pruned(ui, now).toast == if now > note.shown_at
            + 3_000_000_000 {
            None
        } else {
            Some(note)
        },
        ui.toast is None ==> pruned(ui, now) == ui,
        pruned(ui, now) == (Ui { toast: pruned(ui, now).toast, ..ui }),
{
}

/// Saved settings are told as a success, with the advice to restart exactly if
/// the connection changed; what went wrong is told as an error in its words.
pub proof fn law_saving_is_told(changed: bool, fault: ConfigFault, now: u64)
    ensures
        save_note(changed, Ok(()), now).kind == ToastKind::Success,
        save_note(changed, Ok(()), now).text == if changed {
            "settings saved — restart to apply connection changes"@
        } else {
            "settings saved"@
        },
        save_note(changed, Err(fault), now).kind == ToastKind::Error,
        save_note(changed, Err(fault), now).text == "settings save failed: "@ + fault.text(),
        save_note(changed, Ok(()), now).shown_at == now,
        save_note(changed, Err(fault), now).shown_at == now,
{
}

/// The view starts with the configuration it is given, with nothing read,
/// nothing pending and no message, on the first of the controls on offer.
pub proof fn law_fresh_view(
    modbus: Endpoint,
    poll: PollConfig,
    ui: UiPreferences,
    registers: Seq<RegisterDef>,
    interval_seconds: u64,
)
    ensures
        ({
            let view = fresh(modbus, poll, ui, registers, interval_seconds);
            &&& view.modbus == modbus && view.poll == poll && view.ui == ui
            &&& view.registers == registers && view.interval_seconds == interval_seconds
            &&& view.update is Pending && view.pending is None && view.toast is None
            &&& view.mode is Normal && view.selection == 0
            &&& view.controls == control::offered_controls(registers, ui)
        }),
{
}


/// What the view stands for is all that it holds.
pub proof fn law_view_as_it_is(state: UiState)
    ensures
        state@.modbus == state.cfg.modbus@,
        state@.poll == state.cfg.poll,
        state@.ui == state.cfg.ui@,
        state@.registers == state.cfg.registers@,
        state@.update == state.update,
        state@.controls == state.controls@,
        state@.selection == state.selection,
        state@.interval_seconds == state.interval_seconds,
        match state.mode {
            UiMode::Normal => state@.mode is Normal,
            UiMode::Editing(buf) => state@.mode == (Mode::Editing {
                control: buf.control,
                text: buf.text@,
            }),
            UiMode::Settings(settings) => state@.mode == Mode::Settings(settings@),
        },
        state.toast is None <==> state@.toast is None,
        state.toast matches Some(toast) ==> state@.toast == Some(
            Note { text: toast.text@, kind: toast.kind, shown_at: toast.shown_at },
        ),
        state.pending_write is None <==> state@.pending is None,
        state.pending_write matches Some(p) ==> state@.pending == Some(
            Pending { control: p.control, value: p.value@ },
        ),
{
}

/// What is selected, typed, being written and decoded is told by the state
/// itself.
pub proof fn law_parts_of_the_view(ui: Ui, control: ControlId, entries: Seq<SnapshotEntry>)
    ensures
        ui.selected() == if ui.selection < ui.controls.len() {
            Some(ui.controls[ui.selection as int])
        } else {
            None
        },
        ui.typed(control) is Some <==> (ui.mode matches Mode::Editing { control: c, text } && c
            == control),
        ui.mode matches Mode::Editing { control: c, text } ==> ui.typed(c) == Some(text),
        ui.pending_value(control) is Some <==> (ui.pending matches Some(p) && p.control == control),
        ui.pending matches Some(p) ==> ui.pending_value(p.control) == Some(p.value),
        polled_with(ui, entries) ==> ui.entries() == Some(entries) && ui.status() == Some(
            status::status_of(entries),
        ),
        !(ui.update is Polled) ==> ui.entries() is None && ui.status() is None,
{
}

/// What has to be done is told by the action itself.
pub proof fn law_actions_as_they_are(command: ActorCommand, connection_changed: bool)
    ensures
        Action::Nothing@ == Deed::Nothing,
        Action::Quit@ == Deed::Quit,
        Action::Send(command)@ == Deed::Send(command@),
        (Action::Save { connection_changed })@ == (Deed::Save { connection_changed }),
{
}


/// Only a key that goes down does anything.
pub proof fn law_released_keys_do_nothing(ui: Ui, key: Key, now: u64)
    requires
        !key.press,
    ensures
        pressed(ui, key, now) == (ui, Deed::Nothing),
{
}

} // verus!
