//! The lines of the main view: header, status section, data sections and
//! footer.
//!
//! What is drawn is a function of the state ([`Ui`]) and, for the header, of
//! the time.

use crate::config::{Config, UiPreferences};
use crate::domain::{
    self, temperature_text, ModeSelection, RegisterDef, RegisterKind, RegisterValueType, Snapshot,
    SnapshotEntry,
};
use crate::grouping::{self, find_last_definition, first_seen, group_of_name};
use crate::report;
use crate::status::{
    self, ActiveMode, DeviceState, OperationPhase, Priority, Status, StatusView,
};
use crate::text::{self, push_decimal, push_spaces, same};
use crate::tui::actor::PollUpdate;
use crate::tui::control::{self, format_for, mode_ui_label, ControlId};
use crate::tui::settings;
use crate::tui::state::{Mode, ToastKind, Ui, UiMode, UiState};
use crate::tui::style::{
    self, push_line, push_section_header, row_start, Color, Line, Piece, Style,
};
use vstd::prelude::*;

verus! {

/// Width of the labels in the status section.
pub const STATUS_LABEL_WIDTH: usize = 12;

/// Width of the labels in the data sections.
pub const LABEL_WIDTH: usize = 18;

/// Nanoseconds in a second.
pub const SECOND: u64 = 1_000_000_000;

// ---------------------------------------------------------------------
// Header
// ---------------------------------------------------------------------

/// How long ago `then` was.
pub open spec fn elapsed(then: u64, now: u64) -> nat {
    if now > then {
        (now - then) as nat
    } else {
        0
    }
}

/// How many whole seconds of the interval are left.
pub open spec fn remaining_seconds(interval_seconds: u64, elapsed: nat) -> nat {
    if interval_seconds * SECOND > elapsed {
        ((interval_seconds * SECOND - elapsed) / (SECOND as int)) as nat
    } else {
        0
    }
}

/// The state of the connection.
pub open spec fn poll_pieces(update: PollUpdate, interval_seconds: u64, now: u64) -> Seq<Piece> {
    match update {
        PollUpdate::Pending => seq![
            style::styled("● "@, style::tinted(Color::Yellow)),
            style::raw("connecting..."@),
        ],
        PollUpdate::Polled { polled_at, .. } => {
            let ago = elapsed(polled_at, now);
            seq![
                style::styled("● "@, style::tinted(Color::Green)),
                style::raw(
                    "polled "@ + text::decimal(ago / (SECOND as nat))
                        + "s ago · next refresh in "@ + text::decimal(
                        remaining_seconds(interval_seconds, ago),
                    ) + "s"@,
                ),
            ]
        },
        PollUpdate::Failed { message, failed_at } => seq![
            style::styled("● "@, style::tinted(Color::Red)),
            style::raw(
                "error "@ + text::decimal(elapsed(failed_at, now) / (SECOND as nat)) + "s ago: "@
                    + message@,
            ),
        ],
    }
}

/// The firmware version, if it is known.
pub open spec fn firmware_pieces(status: Option<Status>) -> Seq<Piece> {
    match status {
        Some(status) => match status.firmware {
            Some(version) => seq![
                style::styled("Firmware "@, style::dim()),
                style::styled(version.text(), style::bold()),
                style::raw("    "@),
            ],
            None => Seq::empty(),
        },
        None => Seq::empty(),
    }
}

/// The endpoint and the unit.
pub open spec fn endpoint_pieces(ui: Ui) -> Seq<Piece> {
    seq![
        style::raw(
            ui.modbus.host + ":"@ + text::decimal(ui.modbus.port as nat) + "  unit "@
                + text::decimal(ui.modbus.unit_id as nat),
        ),
    ]
}

/// The two lines of the header.
pub open spec fn header(ui: Ui, now: u64) -> Seq<Seq<Piece>> {
    seq![
        endpoint_pieces(ui),
        firmware_pieces(ui.status()) + poll_pieces(ui.update, ui.interval_seconds, now),
    ]
}

fn elapsed_nanos(then: u64, now: u64) -> (r: u64)
    ensures
        r as nat == elapsed(then, now),
{
    if now > then {
        now - then
    } else {
        0
    }
}

fn remaining(interval_seconds: u64, ago: u64) -> (r: u64)
    ensures
        r as nat == remaining_seconds(interval_seconds, ago as nat),
{
    let total: u128 = interval_seconds as u128 * 1_000_000_000;
    if total > ago as u128 {
        let left: u128 = (total - ago as u128) / 1_000_000_000;
        left as u64
    } else {
        0
    }
}

fn push_poll_status(line: &mut Line, update: &PollUpdate, interval_seconds: u64, now: u64)
    ensures
        final(line)@ == old(line)@ + poll_pieces(*update, interval_seconds, now),
{
    let ghost start = line@;
    match update {
        PollUpdate::Pending => {
            line.push("● ", Style::tinted(Color::Yellow));
            line.push_raw("connecting...");
        },
        PollUpdate::Polled { polled_at, .. } => {
            let ago = elapsed_nanos(*polled_at, now);
            let mut text = "polled ".to_owned();
            push_decimal(&mut text, ago / SECOND);
            text.append("s ago · next refresh in ");
            push_decimal(&mut text, remaining(interval_seconds, ago));
            text.append("s");
            line.push("● ", Style::tinted(Color::Green));
            line.push_raw(text.as_str());
        },
        PollUpdate::Failed { message, failed_at } => {
            let mut text = "error ".to_owned();
            push_decimal(&mut text, elapsed_nanos(*failed_at, now) / SECOND);
            text.append("s ago: ");
            text.append(message.as_str());
            line.push("● ", Style::tinted(Color::Red));
            line.push_raw(text.as_str());
        },
    }
    assert(line@ =~= start + poll_pieces(*update, interval_seconds, now));
}

/// The two lines of the header: the endpoint, then the firmware version and
/// the state of the connection.
pub fn header_lines(state: &UiState, view: Option<&StatusView>, now: u64) -> (r: Vec<Line>)
    requires
        match view {
            Some(v) => state@.status() == Some(v@),
            None => state@.status() is None,
        },
    ensures
        style::drawn(r@) == header(state@, now),
{
    let mut endpoint = state.cfg.modbus.endpoint();
    endpoint.append("  unit ");
    push_decimal(&mut endpoint, state.cfg.modbus.unit_id as u64);
    let mut first = Line::new();
    first.push_raw(endpoint.as_str());
    assert(first@ =~= endpoint_pieces(state@));
    let mut second = Line::new();
    match view {
        Some(v) => match v.firmware {
            Some(version) => {
                second.push("Firmware ", Style::dim());
                second.push(version.to_string().as_str(), Style::bold());
                second.push_raw("    ");
            },
            None => {},
        },
        None => {},
    }
    assert(second@ =~= firmware_pieces(state@.status()));
    push_poll_status(&mut second, &state.update, state.interval_seconds, now);
    let mut lines: Vec<Line> = Vec::new();
    push_line(&mut lines, first);
    push_line(&mut lines, second);
    assert(style::drawn(lines@) =~= header(state@, now));
    lines
}

// ---------------------------------------------------------------------
// Status section: rows with a control
// ---------------------------------------------------------------------

/// What a row with a control ends with: how it is used if it is selected, or
/// that its value is being written.
pub open spec fn row_suffix(
    selected: bool,
    pending: bool,
    hint: Seq<char>,
    writing: Seq<char>,
) -> Seq<Piece> {
    if pending {
        seq![style::styled(writing, style::dim())]
    } else if selected {
        seq![style::styled(hint, style::dim())]
    } else {
        Seq::empty()
    }
}

fn push_row_suffix(line: &mut Line, selected: bool, pending: bool, hint: &str, writing: &str)
    ensures
        final(line)@ == old(line)@ + row_suffix(selected, pending, hint@, writing@),
{
    let ghost start = line@;
    if selected && !pending {
        line.push(hint, Style::dim());
    } else if pending {
        line.push(writing, Style::dim());
    }
    assert(line@ =~= start + row_suffix(selected, pending, hint@, writing@));
}

/// A dash where there is nothing to show.
pub open spec fn nothing() -> Seq<Piece> {
    seq![style::styled("—"@, style::dim())]
}

/// Whether the power row shows "on": what is being written counts more than
/// what was read.
pub open spec fn shows_on(device: DeviceState, ui: Ui) -> bool {
    match ui.pending_value(ControlId::Power) {
        Some(value) => value == "1"@,
        None => device.power_on,
    }
}

/// The power row.
pub open spec fn power_row(device: DeviceState, ui: Ui) -> Seq<Piece> {
    let selected = ui.selected() == Some(ControlId::Power);
    let pending = ui.pending_value(ControlId::Power) is Some;
    let on = shows_on(device, ui);
    let color = if on {
        Color::Green
    } else {
        Color::Red
    };
    let label = if on {
        "ON"@
    } else {
        "OFF"@
    };
    let suffix = if !device.transitioning {
        ""@
    } else if on {
        " (starting)"@
    } else {
        " (stopping)"@
    };
    style::row_prefix("Power"@, STATUS_LABEL_WIDTH as nat, selected) + seq![
        style::styled("● "@, style::tinted(color)),
        style::styled(label + suffix, style::strong(color)),
    ] + row_suffix(selected, pending, " Enter — toggle"@, " writing..."@)
}

fn power_line(device: &DeviceState, state: &UiState) -> (r: Line)
    ensures
        r@ == power_row(*device, state@),
{
    let selected = state.is_selected(ControlId::Power);
    let pending = state.pending_for(ControlId::Power);
    let on = match pending {
        Some(p) => same(p.value.as_str(), "1"),
        None => device.power_on,
    };
    let color = if on {
        Color::Green
    } else {
        Color::Red
    };
    let mut text = if on {
        "ON".to_owned()
    } else {
        "OFF".to_owned()
    };
    text.append(
        if !device.transitioning {
            ""
        } else if on {
            " (starting)"
        } else {
            " (stopping)"
        },
    );
    let mut line = row_start("Power", STATUS_LABEL_WIDTH, selected);
    line.push("● ", Style::tinted(color));
    line.push(text.as_str(), Style::strong(color));
    proof {
        assert(line@ =~= style::row_prefix("Power"@, STATUS_LABEL_WIDTH as nat, selected) + seq![
            style::styled("● "@, style::tinted(color)),
            style::styled(text@, style::strong(color)),
        ]);
    }
    push_row_suffix(&mut line, selected, pending.is_some(), " Enter — toggle", " writing...");
    line
}

/// The colour of a mode.
pub open spec fn color_of_mode(mode: ModeSelection) -> Color {
    match mode {
        ModeSelection::Ventilation => Color::Blue,
        ModeSelection::Heating => Color::Yellow,
        ModeSelection::Cooling => Color::Cyan,
        ModeSelection::Auto => Color::Green,
    }
}

/// The colour of a mode.
pub fn mode_color(mode: ModeSelection) -> (r: Color)
    ensures
        r == color_of_mode(mode),
{
    match mode {
        ModeSelection::Ventilation => Color::Blue,
        ModeSelection::Heating => Color::Yellow,
        ModeSelection::Cooling => Color::Cyan,
        ModeSelection::Auto => Color::Green,
    }
}

/// The mode that the mode row shows: what is being written counts more than
/// what was read.
pub open spec fn shown_mode(selection: Option<ModeSelection>, ui: Ui) -> Option<ModeSelection> {
    match ui.pending_value(ControlId::Mode) {
        Some(value) => match ModeSelection::parsed(value) {
            Ok(mode) => Some(mode),
            Err(_) => selection,
        },
        None => selection,
    }
}

/// What climate control is doing; the other modes speak for themselves.
pub open spec fn climate_pieces(mode: ModeSelection, device: DeviceState) -> Seq<Piece> {
    if mode != ModeSelection::Auto {
        Seq::empty()
    } else {
        match device.running_mode() {
            ActiveMode::Heating => seq![style::styled("  (heating now)"@, style::dim())],
            ActiveMode::Cooling => seq![style::styled("  (cooling now)"@, style::dim())],
            ActiveMode::Ventilation => Seq::empty(),
        }
    }
}

/// The value of the mode row.
pub open spec fn mode_pieces(mode: Option<ModeSelection>, device: DeviceState) -> Seq<Piece> {
    match mode {
        Some(mode) => seq![
            style::styled(control::mode_title(mode), style::strong(color_of_mode(mode))),
        ] + climate_pieces(mode, device),
        None => nothing(),
    }
}

/// The mode row, where the mode can be set.
pub open spec fn mode_row(
    selection: Option<ModeSelection>,
    device: DeviceState,
    ui: Ui,
) -> Seq<Piece> {
    let selected = ui.selected() == Some(ControlId::Mode);
    let pending = ui.pending_value(ControlId::Mode) is Some;
    style::row_prefix("Mode"@, STATUS_LABEL_WIDTH as nat, selected) + mode_pieces(
        shown_mode(selection, ui),
        device,
    ) + row_suffix(selected, pending, " Enter — cycle"@, " writing..."@)
}

fn push_mode_value(line: &mut Line, mode: Option<ModeSelection>, device: &DeviceState)
    ensures
        final(line)@ == old(line)@ + mode_pieces(mode, *device),
{
    let ghost start = line@;
    match mode {
        Some(mode) => {
            line.push(mode_ui_label(mode), Style::strong(mode_color(mode)));
            if matches!(mode, ModeSelection::Auto) {
                match device.active_mode() {
                    ActiveMode::Heating => {
                        line.push("  (heating now)", Style::dim());
                    },
                    ActiveMode::Cooling => {
                        line.push("  (cooling now)", Style::dim());
                    },
                    ActiveMode::Ventilation => {},
                }
            }
        },
        None => {
            line.push("—", Style::dim());
        },
    }
    assert(line@ =~= start + mode_pieces(mode, *device));
}

fn mode_selection_line(view: &StatusView, device: &DeviceState, state: &UiState) -> (r: Line)
    ensures
        r@ == mode_row(view.mode_selection, *device, state@),
{
    let selected = state.is_selected(ControlId::Mode);
    let pending = state.pending_for(ControlId::Mode);
    let shown = match pending {
        Some(p) => match ModeSelection::parse(p.value.as_str()) {
            Ok(mode) => Some(mode),
            Err(_) => view.mode_selection,
        },
        None => view.mode_selection,
    };
    let mut line = row_start("Mode", STATUS_LABEL_WIDTH, selected);
    push_mode_value(&mut line, shown, device);
    push_row_suffix(&mut line, selected, pending.is_some(), " Enter — cycle", " writing...");
    line
}

/// The text being typed, with a cursor.
pub open spec fn typed_text(typed: Seq<char>) -> Seq<char> {
    "["@ + typed + "█]"@
}

/// The text being typed, with a cursor.
pub fn typed_field(typed: &str) -> (r: String)
    ensures
        r@ == typed_text(typed@),
{
    let mut out = "[".to_owned();
    out.append(typed);
    out.append("█]");
    out
}

/// The setpoint that is shown: what is being written counts more than what
/// was read.
pub open spec fn shown_setpoint(target: Option<i16>, ui: Ui) -> Option<Seq<char>> {
    match ui.pending_value(ControlId::Setpoint) {
        Some(value) => Some(value),
        None => match target {
            Some(t) => Some(domain::tenths_text(t as int)),
            None => None,
        },
    }
}

/// The setpoint row.
pub open spec fn setpoint_row(target: Option<i16>, ui: Ui) -> Seq<Piece> {
    let selected = ui.selected() == Some(ControlId::Setpoint);
    let pending = ui.pending_value(ControlId::Setpoint) is Some;
    let prefix = style::row_prefix("Setpoint"@, STATUS_LABEL_WIDTH as nat, selected);
    match ui.typed(ControlId::Setpoint) {
        Some(typed) => prefix + seq![
            style::styled(typed_text(typed) + " °C"@, style::strong(Color::Magenta)),
        ],
        None => prefix + match shown_setpoint(target, ui) {
            Some(value) => seq![style::styled(value + " °C"@, style::strong(Color::Magenta))],
            None => nothing(),
        } + row_suffix(selected, pending, " Enter — edit"@, " writing..."@),
    }
}

fn setpoint_line(target: Option<i16>, state: &UiState) -> (r: Line)
    ensures
        r@ == setpoint_row(target, state@),
{
    let selected = state.is_selected(ControlId::Setpoint);
    let pending = state.pending_for(ControlId::Setpoint);
    let mut line = row_start("Setpoint", STATUS_LABEL_WIDTH, selected);
    let ghost prefix = line@;
    match state.editing(ControlId::Setpoint) {
        Some(buf) => {
            let mut text = typed_field(buf.text.as_str());
            text.append(" °C");
            line.push(text.as_str(), Style::strong(Color::Magenta));
            assert(line@ =~= setpoint_row(target, state@));
            return line;
        },
        None => {},
    }
    let display = match pending {
        Some(p) => Some(p.value.clone()),
        None => match target {
            Some(t) => Some(temperature_text(t)),
            None => None,
        },
    };
    match display {
        Some(value) => {
            let mut text = value;
            text.append(" °C");
            line.push(text.as_str(), Style::strong(Color::Magenta));
        },
        None => {
            line.push("—", Style::dim());
        },
    }
    proof {
        let value = match shown_setpoint(target, state@) {
            Some(value) => seq![style::styled(value + " °C"@, style::strong(Color::Magenta))],
            None => nothing(),
        };
        assert(line@ =~= prefix + value);
    }
    push_row_suffix(&mut line, selected, pending.is_some(), " Enter — edit", " writing...");
    line
}

// ---------------------------------------------------------------------
// Status section: rows that only show
// ---------------------------------------------------------------------

/// A row of the status section that only shows something.
pub open spec fn status_row(label: Seq<char>, value: Seq<Piece>) -> Seq<Piece> {
    seq![
        style::raw("    "@),
        style::styled(style::column(label, STATUS_LABEL_WIDTH as nat), style::dim()),
    ] + value
}

fn status_start(label: &str) -> (r: Line)
    ensures
        r@ == status_row(label@, Seq::empty()),
{
    let mut line = Line::new();
    line.push_raw("    ");
    line.push(style::column_text(label, STATUS_LABEL_WIDTH).as_str(), Style::dim());
    assert(line@ =~= status_row(label@, Seq::empty()));
    line
}

/// The mode the device runs in, and what is installed.
pub open spec fn running_pieces(device: DeviceState) -> Seq<Piece> {
    let mode = device.running_mode();
    let color = match mode {
        ActiveMode::Heating => Color::Yellow,
        ActiveMode::Cooling => Color::Cyan,
        ActiveMode::Ventilation => Color::Gray,
    };
    seq![style::styled(mode.name(), style::strong(color))] + if device.heating_available
        && device.cooling_available {
        seq![style::styled("  (heat + cool installed)"@, style::dim())]
    } else if !device.heating_available && !device.cooling_available {
        seq![style::styled("  (no thermal stage installed)"@, style::dim())]
    } else {
        Seq::empty()
    }
}

fn running_mode_line(device: &DeviceState) -> (r: Line)
    ensures
        r@ == status_row("Mode"@, running_pieces(*device)),
{
    let mode = device.active_mode();
    let color = match mode {
        ActiveMode::Heating => Color::Yellow,
        ActiveMode::Cooling => Color::Cyan,
        ActiveMode::Ventilation => Color::Gray,
    };
    let mut line = status_start("Mode");
    line.push(mode.label(), Style::strong(color));
    if device.heating_available && device.cooling_available {
        line.push("  (heat + cool installed)", Style::dim());
    } else if !device.heating_available && !device.cooling_available {
        line.push("  (no thermal stage installed)", Style::dim());
    }
    assert(line@ =~= status_row("Mode"@, running_pieces(*device)));
    line
}

/// The timers that are active.
pub open spec fn schedule_pieces(device: DeviceState) -> Seq<Piece> {
    let parts = if device.timer_today && device.timer_week {
        "today, week"@
    } else if device.timer_today {
        "today"@
    } else if device.timer_week {
        "week"@
    } else {
        ""@
    };
    seq![
        style::styled("⏱ "@, style::tinted(Color::Cyan)),
        style::styled("timer active ("@ + parts + ")"@, style::tinted(Color::Cyan)),
    ]
}

fn schedule_line(device: &DeviceState) -> (r: Line)
    ensures
        r@ == status_row("Schedule"@, schedule_pieces(*device)),
{
    let mut text = "timer active (".to_owned();
    text.append(
        if device.timer_today && device.timer_week {
            "today, week"
        } else if device.timer_today {
            "today"
        } else if device.timer_week {
            "week"
        } else {
            ""
        },
    );
    text.append(")");
    let mut line = status_start("Schedule");
    line.push("⏱ ", Style::tinted(Color::Cyan));
    line.push(text.as_str(), Style::tinted(Color::Cyan));
    assert(line@ =~= status_row("Schedule"@, schedule_pieces(*device)));
    line
}

/// The priority sensor.
pub open spec fn priority_pieces(priority: Priority) -> Seq<Piece> {
    seq![style::styled(priority.name(), style::strong(Color::Magenta))]
}

/// The operation phase.
pub open spec fn phase_pieces(phase: OperationPhase) -> Seq<Piece> {
    seq![
        style::styled(
            phase.name(),
            if phase == OperationPhase::Idle {
                style::dim()
            } else {
                style::strong(Color::Yellow)
            },
        ),
    ]
}

/// The first error, or that there is none.
pub open spec fn error_pieces(errors: Seq<&'static str>) -> Seq<Piece> {
    if errors.len() == 0 {
        seq![
            style::styled("✓ "@, style::tinted(Color::Green)),
            style::styled("none active"@, style::tinted(Color::Green)),
        ]
    } else {
        seq![
            style::styled("✗ "@, style::tinted(Color::Red)),
            style::styled(errors[0]@, style::strong(Color::Red)),
        ]
    }
}

/// The first note.
pub open spec fn note_pieces(notes: Seq<&'static str>) -> Seq<Piece> {
    seq![
        style::styled("⚠ "@, style::tinted(Color::Yellow)),
        style::styled(notes[0]@, style::tinted(Color::Yellow)),
    ]
}

/// A further error or note, below the first.
pub open spec fn extra_row(message: Seq<char>, color: Color) -> Seq<Piece> {
    seq![
        style::raw("    "@),
        style::raw(text::spaces((STATUS_LABEL_WIDTH + 2) as nat)),
        style::styled("  • "@, style::tinted(color)),
        style::styled(message, style::tinted(color)),
    ]
}

/// The errors or notes behind the first.
pub open spec fn extra_rows(labels: Seq<&'static str>, color: Color) -> Seq<Seq<Piece>> {
    if labels.len() == 0 {
        Seq::empty()
    } else {
        labels.skip(1).map_values(|l: &'static str| extra_row(l@, color))
    }
}

fn extra_message_line(message: &str, color: Color) -> (r: Line)
    ensures
        r@ == extra_row(message@, color),
{
    let mut indent = String::new();
    push_spaces(&mut indent, STATUS_LABEL_WIDTH + 2);
    assert(indent@ =~= text::spaces((STATUS_LABEL_WIDTH + 2) as nat));
    let mut line = Line::new();
    line.push_raw("    ");
    line.push_raw(indent.as_str());
    line.push("  • ", Style::tinted(color));
    line.push(message, Style::tinted(color));
    assert(line@ =~= extra_row(message@, color));
    line
}

fn push_extra_lines(lines: &mut Vec<Line>, labels: &Vec<&'static str>, color: Color)
    ensures
        style::drawn(final(lines)@) == style::drawn(old(lines)@) + extra_rows(labels@, color),
{
    let ghost start = style::drawn(lines@);
    let ghost all = extra_rows(labels@, color);
    if labels.len() == 0 {
        assert(style::drawn(lines@) =~= start + all);
        return ;
    }
    let mut i: usize = 1;
    assert(style::drawn(lines@) =~= start + all.take(0));
    while i < labels.len()
        invariant
            1 <= i <= labels@.len(),
            all == extra_rows(labels@, color),
            style::drawn(lines@) == start + all.take(i - 1),
        decreases labels@.len() - i,
    {
        let line = extra_message_line(labels[i], color);
        proof {
            assert(all[i - 1] == line@);
            assert(all.take(i as int) =~= all.take(i - 1).push(line@));
        }
        push_line(lines, line);
        i = i + 1;
        assert(style::drawn(lines@) =~= start + all.take(i - 1));
    }
    assert(all.take(all.len() as int) =~= all);
}

/// One line if `shown`.
pub open spec fn line_if(shown: bool, line: Seq<Piece>) -> Seq<Seq<Piece>> {
    if shown {
        seq![line]
    } else {
        Seq::empty()
    }
}

/// The rows about the state of the device.
pub open spec fn device_rows(status: Status, ui: Ui) -> Seq<Seq<Piece>> {
    match status.state {
        None => Seq::empty(),
        Some(device) => seq![
            power_row(device, ui),
            if ui.controls.contains(ControlId::Mode) {
                mode_row(status.mode_selection, device, ui)
            } else {
                status_row("Mode"@, running_pieces(device))
            },
        ] + line_if(
            device.priority != Priority::NoSensor,
            status_row("Priority"@, priority_pieces(device.priority)),
        ) + line_if(
            device.timer_today || device.timer_week,
            status_row("Schedule"@, schedule_pieces(device)),
        ),
    }
}

/// The row about the operation phase.
pub open spec fn phase_rows(phase: Option<OperationPhase>) -> Seq<Seq<Piece>> {
    match phase {
        Some(phase) => seq![status_row("Phase"@, phase_pieces(phase))],
        None => Seq::empty(),
    }
}

/// The rows about errors.
pub open spec fn error_rows(errors: Seq<&'static str>) -> Seq<Seq<Piece>> {
    seq![status_row("Errors"@, error_pieces(errors))] + extra_rows(errors, Color::Red)
}

/// The rows about notes.
pub open spec fn note_rows(notes: Seq<&'static str>) -> Seq<Seq<Piece>> {
    if notes.len() == 0 {
        Seq::empty()
    } else {
        seq![status_row("Notes"@, note_pieces(notes))] + extra_rows(notes, Color::Yellow)
    }
}

/// The status section.
pub open spec fn status_section(status: Status, ui: Ui) -> Seq<Seq<Piece>> {
    seq![style::section_header("Status"@)] + device_rows(status, ui) + seq![
        setpoint_row(status.temperature_setpoint, ui),
    ] + phase_rows(status.phase) + error_rows(status.errors) + note_rows(status.notes) + seq![
        style::blank(),
    ]
}

fn has_control(controls: &Vec<ControlId>, control: ControlId) -> (r: bool)
    ensures
        r == controls@.contains(control),
{
    let mut i: usize = 0;
    while i < controls.len()
        invariant
            i <= controls@.len(),
            forall|j: int| 0 <= j < i ==> controls@[j] != control,
        decreases controls@.len() - i,
    {
        if controls[i] == control {
            return true;
        }
        i = i + 1;
    }
    false
}

fn push_device_lines(lines: &mut Vec<Line>, view: &StatusView, state: &UiState)
    ensures
        style::drawn(final(lines)@) == style::drawn(old(lines)@) + device_rows(view@, state@),
{
    let ghost start = style::drawn(lines@);
    match &view.state {
        None => {},
        Some(device) => {
            push_line(lines, power_line(device, state));
            if has_control(&state.controls, ControlId::Mode) {
                push_line(lines, mode_selection_line(view, device, state));
            } else {
                push_line(lines, running_mode_line(device));
            }
            if !matches!(device.priority, Priority::NoSensor) {
                let mut line = status_start("Priority");
                line.push(device.priority.label(), Style::strong(Color::Magenta));
                assert(line@ =~= status_row("Priority"@, priority_pieces(device.priority)));
                push_line(lines, line);
            }
            if device.timer_today || device.timer_week {
                push_line(lines, schedule_line(device));
            }
        },
    }
    assert(style::drawn(lines@) =~= start + device_rows(view@, state@));
}

fn push_phase_line(lines: &mut Vec<Line>, phase: Option<OperationPhase>)
    ensures
        style::drawn(final(lines)@) == style::drawn(old(lines)@) + phase_rows(phase),
{
    let ghost start = style::drawn(lines@);
    match phase {
        Some(phase) => {
            let mut line = status_start("Phase");
            line.push(
                phase.label(),
                if matches!(phase, OperationPhase::Idle) {
                    Style::dim()
                } else {
                    Style::strong(Color::Yellow)
                },
            );
            assert(line@ =~= status_row("Phase"@, phase_pieces(phase)));
            push_line(lines, line);
        },
        None => {},
    }
    assert(style::drawn(lines@) =~= start + phase_rows(phase));
}

fn push_error_lines(lines: &mut Vec<Line>, errors: &Vec<&'static str>)
    ensures
        style::drawn(final(lines)@) == style::drawn(old(lines)@) + error_rows(errors@),
{
    let ghost start = style::drawn(lines@);
    let mut line = status_start("Errors");
    if errors.len() == 0 {
        line.push("✓ ", Style::tinted(Color::Green));
        line.push("none active", Style::tinted(Color::Green));
    } else {
        line.push("✗ ", Style::tinted(Color::Red));
        line.push(errors[0], Style::strong(Color::Red));
    }
    assert(line@ =~= status_row("Errors"@, error_pieces(errors@)));
    push_line(lines, line);
    push_extra_lines(lines, errors, Color::Red);
    assert(style::drawn(lines@) =~= start + error_rows(errors@));
}

fn push_note_lines(lines: &mut Vec<Line>, notes: &Vec<&'static str>)
    ensures
        style::drawn(final(lines)@) == style::drawn(old(lines)@) + note_rows(notes@),
{
    let ghost start = style::drawn(lines@);
    if notes.len() > 0 {
        let mut line = status_start("Notes");
        line.push("⚠ ", Style::tinted(Color::Yellow));
        line.push(notes[0], Style::tinted(Color::Yellow));
        assert(line@ =~= status_row("Notes"@, note_pieces(notes@)));
        push_line(lines, line);
        push_extra_lines(lines, notes, Color::Yellow);
    }
    assert(style::drawn(lines@) =~= start + note_rows(notes@));
}

/// Append the status section.
pub fn build_status_lines(lines: &mut Vec<Line>, view: &StatusView, state: &UiState)
    ensures
        style::drawn(final(lines)@) == style::drawn(old(lines)@) + status_section(view@, state@),
{
    let ghost start = style::drawn(lines@);
    push_section_header(lines, "Status");
    push_device_lines(lines, view, state);
    push_line(lines, setpoint_line(view.temperature_setpoint, state));
    push_phase_line(lines, view.phase);
    push_error_lines(lines, &view.errors);
    push_note_lines(lines, &view.notes);
    push_line(lines, Line::new());
    assert(style::drawn(lines@) =~= start + status_section(view@, state@));
}


// ---------------------------------------------------------------------
// Data sections
// ---------------------------------------------------------------------

/// The registers that the status section shows.
pub open spec fn in_status(name: Seq<char>) -> bool {
    ||| name == "firmware_version"@
    ||| name == "state_word_0"@
    ||| name == "state_word_1"@
    ||| name == "error_code"@
    ||| name == "error_code_aux"@
    ||| name == "temp_setpoint"@
    ||| name == "mode_system"@
}

/// The register is the target of another one, in whose row it is shown.
pub open spec fn is_inline_target(name: Seq<char>) -> bool {
    name == "fan_speed_supply"@ || name == "fan_speed_exhaust"@
}

/// The control whose register is the target of the register `name`.
pub open spec fn target_control(name: Seq<char>) -> Option<ControlId> {
    if name == "fan_speed_supply_current"@ {
        Some(ControlId::SupplyFan)
    } else if name == "fan_speed_exhaust_current"@ {
        Some(ControlId::ExhaustFan)
    } else {
        None
    }
}

/// The preferences show the row of the register `name`.
pub open spec fn row_visible(
    registers: Seq<RegisterDef>,
    ui: UiPreferences,
    name: Seq<char>,
) -> bool {
    if name == "fan_speed_exhaust"@ || name == "fan_speed_exhaust_current"@ {
        ui.exhaust_fan
    } else {
        match domain::definition_named(registers, name) {
            Some(def) => settings::is_sensor(def) ==> ui.shows_temperature(name),
            None => true,
        }
    }
}

/// The row of the register `name` is in a data section.
pub open spec fn in_data(ui: Ui, name: Seq<char>) -> bool {
    &&& !in_status(name)
    &&& !is_inline_target(name)
    &&& row_visible(ui.registers, ui.ui, name)
    &&& grouping::group_named(ui.registers, name) != "Controls"@
}

/// The entries of the data sections.
pub open spec fn data_entries(ui: Ui, entries: Seq<SnapshotEntry>) -> Seq<SnapshotEntry>
    decreases entries.len(),
{
    if entries.len() == 0 {
        Seq::empty()
    } else {
        let before = data_entries(ui, entries.drop_last());
        if in_data(ui, entries.last().name@) {
            before.push(entries.last())
        } else {
            before
        }
    }
}

/// The label of a register: its display name, or its name.
pub open spec fn display_label(registers: Seq<RegisterDef>, name: Seq<char>) -> Seq<char> {
    match grouping::last_definition(registers, name) {
        Some(def) => match def.display_name {
            Some(label) => label@,
            None => def.name@,
        },
        None => name,
    }
}

/// The label of a register: its display name, or its name.
pub fn display_label_of(registers: &[RegisterDef], name: &str) -> (r: String)
    ensures
        r@ == display_label(registers@, name@),
{
    match find_last_definition(registers, name) {
        Some(def) => match &def.display_name {
            Some(label) => label.clone(),
            None => def.name.clone(),
        },
        None => name.to_owned(),
    }
}

/// The text typed for an optional control.
pub open spec fn typed_for(control: Option<ControlId>, ui: Ui) -> Option<Seq<char>> {
    match control {
        Some(c) => ui.typed(c),
        None => None,
    }
}

/// The value being written for an optional control.
pub open spec fn writing_for(control: Option<ControlId>, ui: Ui) -> Option<Seq<char>> {
    match control {
        Some(c) => ui.pending_value(c),
        None => None,
    }
}

/// The target of a row: what is typed, what is being written, or what was
/// read.
pub open spec fn target_text(
    target: Option<SnapshotEntry>,
    control: Option<ControlId>,
    ui: Ui,
) -> Seq<char> {
    match typed_for(control, ui) {
        Some(typed) => typed_text(typed),
        None => match writing_for(control, ui) {
            Some(value) => value,
            None => match target {
                Some(entry) => report::value_text(entry),
                None => "—"@,
            },
        },
    }
}

/// The target of a row, where it has one.
pub open spec fn target_pieces(
    target: Option<SnapshotEntry>,
    control: Option<ControlId>,
    ui: Ui,
) -> Seq<Piece> {
    if target is None && control is None {
        Seq::empty()
    } else {
        seq![
            style::styled("   →  target "@, style::dim()),
            style::styled(target_text(target, control, ui), style::strong(Color::Magenta)),
        ]
    }
}

/// The row of an entry: its label, its value and, where it has one, its
/// target.
pub open spec fn data_row(
    label: Seq<char>,
    entry: SnapshotEntry,
    target: Option<SnapshotEntry>,
    control: Option<ControlId>,
    ui: Ui,
) -> Seq<Piece> {
    let selected = control is Some && ui.selected() == control;
    style::row_prefix(label, LABEL_WIDTH as nat, selected) + seq![
        style::styled(report::value_text(entry), style::strong(Color::White)),
    ] + target_pieces(target, control, ui) + row_suffix(
        selected && typed_for(control, ui) is None,
        writing_for(control, ui) is Some,
        "  Enter — edit"@,
        "  writing..."@,
    )
}

/// What a reference to an entry refers to.
pub open spec fn referred(entry: Option<&SnapshotEntry>) -> Option<SnapshotEntry> {
    match entry {
        Some(e) => Some(*e),
        None => None,
    }
}

/// The row of an entry, with the target of its control if it has one.
pub fn data_line(
    label: &str,
    entry: &SnapshotEntry,
    target: Option<&SnapshotEntry>,
    control: Option<ControlId>,
    state: &UiState,
) -> (r: Line)
    ensures
        r@ == data_row(label@, *entry, referred(target), control, state@),
{
    let selected = match control {
        Some(c) => state.is_selected(c),
        None => false,
    };
    let editing = match control {
        Some(c) => state.editing(c),
        None => None,
    };
    let pending = match control {
        Some(c) => state.pending_for(c),
        None => None,
    };
    let mut line = row_start(label, LABEL_WIDTH, selected);
    line.push(report::format_entry_value(entry).as_str(), Style::strong(Color::White));
    let ghost start = line@;
    if target.is_some() || control.is_some() {
        line.push("   →  target ", Style::dim());
        let text = match editing {
            Some(buf) => typed_field(buf.text.as_str()),
            None => match pending {
                Some(p) => p.value.clone(),
                None => match target {
                    Some(entry) => report::format_entry_value(entry),
                    None => "—".to_owned(),
                },
            },
        };
        line.push(text.as_str(), Style::strong(Color::Magenta));
    }
    assert(line@ =~= start + target_pieces(referred(target), control, state@));
    push_row_suffix(
        &mut line,
        selected && editing.is_none(),
        pending.is_some(),
        "  Enter — edit",
        "  writing...",
    );
    assert(line@ =~= data_row(label@, *entry, referred(target), control, state@));
    line
}

/// The row of an entry of the snapshot `entries`.
pub open spec fn entry_row(ui: Ui, entries: Seq<SnapshotEntry>, entry: SnapshotEntry) -> Seq<
    Piece,
> {
    let control = target_control(entry.name@);
    data_row(
        display_label(ui.registers, entry.name@),
        entry,
        match control {
            Some(c) => domain::last_named(entries, c.register_name()),
            None => None,
        },
        control,
        ui,
    )
}

/// The rows of the entries whose group is `group`, in order.
pub open spec fn group_rows(
    ui: Ui,
    entries: Seq<SnapshotEntry>,
    shown: Seq<SnapshotEntry>,
    group: Seq<char>,
) -> Seq<Seq<Piece>>
    decreases shown.len(),
{
    if shown.len() == 0 {
        Seq::empty()
    } else {
        let before = group_rows(ui, entries, shown.drop_last(), group);
        if grouping::group_named(ui.registers, shown.last().name@) == group {
            before.push(entry_row(ui, entries, shown.last()))
        } else {
            before
        }
    }
}

/// The sections of `order`: a heading, the rows, an empty line.
pub open spec fn group_sections(
    ui: Ui,
    entries: Seq<SnapshotEntry>,
    shown: Seq<SnapshotEntry>,
    order: Seq<Seq<char>>,
) -> Seq<Seq<Piece>>
    decreases order.len(),
{
    if order.len() == 0 {
        Seq::empty()
    } else {
        group_sections(ui, entries, shown, order.drop_last()) + seq![
            style::section_header(order.last()),
        ] + group_rows(ui, entries, shown, order.last()) + seq![style::blank()]
    }
}

/// The data sections of a snapshot, in the order in which the groups first
/// appear.
pub open spec fn data_sections(ui: Ui, entries: Seq<SnapshotEntry>) -> Seq<Seq<Piece>> {
    let shown = data_entries(ui, entries);
    group_sections(
        ui,
        entries,
        shown,
        grouping::distinct(report::entry_groups(shown, ui.registers)),
    )
}

fn status_decoded(name: &str) -> (r: bool)
    ensures
        r == in_status(name@),
{
    same(name, "firmware_version") || same(name, "state_word_0") || same(name, "state_word_1")
        || same(name, "error_code") || same(name, "error_code_aux") || same(name, "temp_setpoint")
        || same(name, "mode_system")
}

/// The control whose register is the target of the register `name`.
pub fn control_for_actual(name: &str) -> (r: Option<ControlId>)
    ensures
        r == target_control(name@),
{
    if same(name, "fan_speed_supply_current") {
        Some(ControlId::SupplyFan)
    } else if same(name, "fan_speed_exhaust_current") {
        Some(ControlId::ExhaustFan)
    } else {
        None
    }
}

/// Whether the row for `name` should appear in the data sections. Filters
/// temperatures by [`crate::config::UiConfig::temperatures`] and the
/// exhaust-fan rows (both current speed and setpoint) by
/// [`crate::config::UiConfig::exhaust_fan`].
pub fn data_entry_visible(cfg: &Config, name: &str) -> (r: bool)
    ensures
        r == row_visible(cfg.registers@, cfg.ui@, name@),
{
    if same(name, "fan_speed_exhaust") || same(name, "fan_speed_exhaust_current") {
        return cfg.ui.exhaust_fan;
    }
    match cfg.register(name) {
        Some(reg) => {
            if matches!(reg.kind, RegisterKind::Input) && matches!(
                reg.value_type,
                RegisterValueType::TemperatureX10
            ) {
                cfg.temperature_visible(name)
            } else {
                true
            }
        },
        None => true,
    }
}

fn shown_in_data(state: &UiState, name: &str) -> (r: bool)
    ensures
        r == in_data(state@, name@),
{
    !status_decoded(name) && !(same(name, "fan_speed_supply") || same(name, "fan_speed_exhaust"))
        && data_entry_visible(&state.cfg, name) && !same(
        group_of_name(state.cfg.registers.as_slice(), name).as_str(),
        "Controls",
    )
}

fn entry_line(state: &UiState, snapshot: &Snapshot, entry: &SnapshotEntry) -> (r: Line)
    ensures
        r@ == entry_row(state@, snapshot.entries@, *entry),
{
    let label = display_label_of(state.cfg.registers.as_slice(), entry.name.as_str());
    let control = control_for_actual(entry.name.as_str());
    let target = match control {
        Some(c) => snapshot.last(c.register()),
        None => None,
    };
    data_line(label.as_str(), entry, target, control, state)
}

/// Append the data sections.
pub fn build_data_lines(lines: &mut Vec<Line>, snapshot: &Snapshot, state: &UiState)
    ensures
        style::drawn(final(lines)@) == style::drawn(old(lines)@) + data_sections(
            state@,
            snapshot.entries@,
        ),
{
    let ghost start = style::drawn(lines@);
    let ghost ui = state@;
    let entries = &snapshot.entries;
    let mut shown: Vec<&SnapshotEntry> = Vec::new();
    let mut groups: Vec<String> = Vec::new();
    let mut k: usize = 0;
    let ghost mut kept: Seq<SnapshotEntry> = Seq::empty();
    assert(entries@.take(0) =~= Seq::empty());
    assert(grouping::texts(groups@) =~= report::entry_groups(kept, ui.registers));
    while k < entries.len()
        invariant
            k <= entries@.len(),
            ui == state@,
            *entries == snapshot.entries,
            kept == data_entries(ui, entries@.take(k as int)),
            shown@.len() == kept.len(),
            forall|j: int| 0 <= j < kept.len() ==> *(#[trigger] shown@[j]) == kept[j],
            grouping::texts(groups@) == report::entry_groups(kept, ui.registers),
        decreases entries@.len() - k,
    {
        let name = entries[k].name.as_str();
        proof {
            let t = entries@.take(k + 1);
            assert(t.drop_last() =~= entries@.take(k as int));
            assert(t.last() == entries@[k as int]);
        }
        if shown_in_data(state, name) {
            let ghost (groups0, kept0) = (groups@, kept);
            let group = group_of_name(state.cfg.registers.as_slice(), name);
            shown.push(&entries[k]);
            groups.push(group);
            proof {
                kept = kept.push(entries@[k as int]);
                assert(grouping::texts(groups@) =~= grouping::texts(groups0).push(group@));
                assert(report::entry_groups(kept, ui.registers) =~= report::entry_groups(
                    kept0,
                    ui.registers,
                ).push(group@));
            }
        }
        k = k + 1;
    }
    assert(entries@.take(entries@.len() as int) =~= entries@);
    let order = first_seen(&groups);
    let ghost names = grouping::texts(order@);
    let ghost marks = report::entry_groups(kept, ui.registers);
    let mut i: usize = 0;
    assert(names.take(0) =~= Seq::empty());
    assert(start + group_sections(ui, entries@, kept, names.take(0)) =~= start);
    while i < order.len()
        invariant
            i <= order@.len(),
            ui == state@,
            *entries == snapshot.entries,
            names == grouping::texts(order@),
            marks == report::entry_groups(kept, ui.registers),
            grouping::texts(groups@) == marks,
            shown@.len() == kept.len(),
            groups@.len() == kept.len(),
            forall|j: int| 0 <= j < kept.len() ==> *(#[trigger] shown@[j]) == kept[j],
            style::drawn(lines@) == start + group_sections(
                ui,
                entries@,
                kept,
                names.take(i as int),
            ),
        decreases order@.len() - i,
    {
        let ghost before = style::drawn(lines@);
        proof {
            assert(names.take(i + 1).drop_last() =~= names.take(i as int));
            assert(names.take(i + 1).last() == order@[i as int]@);
        }
        let ghost group = order@[i as int]@;
        push_section_header(lines, order[i].as_str());
        let ghost head = style::drawn(lines@);
        let mut j: usize = 0;
        assert(kept.take(0) =~= Seq::empty());
        assert(head + group_rows(ui, entries@, kept.take(0), group) =~= head);
        while j < shown.len()
            invariant
                j <= shown@.len(),
                i < order@.len(),
                group == order@[i as int]@,
                ui == state@,
                *entries == snapshot.entries,
                marks == report::entry_groups(kept, ui.registers),
                grouping::texts(groups@) == marks,
                shown@.len() == kept.len(),
                groups@.len() == kept.len(),
                forall|j: int| 0 <= j < kept.len() ==> *(#[trigger] shown@[j]) == kept[j],
                style::drawn(lines@) == head + group_rows(
                    ui,
                    entries@,
                    kept.take(j as int),
                    group,
                ),
            decreases shown@.len() - j,
        {
            let ghost rows = style::drawn(lines@);
            proof {
                let t = kept.take(j + 1);
                assert(t.drop_last() =~= kept.take(j as int));
                assert(t.last() == kept[j as int]);
                assert(marks[j as int] == groups@[j as int]@);
            }
            if same(groups[j].as_str(), order[i].as_str()) {
                push_line(lines, entry_line(state, snapshot, shown[j]));
            }
            j = j + 1;
            assert(style::drawn(lines@) =~= head + group_rows(
                ui,
                entries@,
                kept.take(j as int),
                group,
            ));
        }
        push_line(lines, Line::new());
        i = i + 1;
        proof {
            assert(kept.take(kept.len() as int) =~= kept);
            assert(style::drawn(lines@) =~= start + group_sections(
                ui,
                entries@,
                kept,
                names.take(i as int),
            ));
        }
    }
    assert(names.take(names.len() as int) =~= names);
}

// ---------------------------------------------------------------------
// Body
// ---------------------------------------------------------------------

/// The body of the main view: the sections of the latest poll, or why there
/// are none.
pub open spec fn body(ui: Ui) -> Seq<Seq<Piece>> {
    match ui.update {
        PollUpdate::Pending => seq![
            style::blank(),
            seq![
                style::styled("  Waiting for the first poll to complete..."@, style::dim()),
            ],
        ],
        PollUpdate::Failed { message, .. } => seq![
            style::blank(),
            seq![style::styled("  Last poll failed"@, style::strong(Color::Red))],
            style::blank(),
            seq![style::raw("    "@ + message@)],
        ],
        PollUpdate::Polled { snapshot, .. } => status_section(
            status::status_of(snapshot.entries@),
            ui,
        ) + data_sections(ui, snapshot.entries@),
    }
}

fn single(text: &str, style: Style) -> (r: Line)
    ensures
        r@ == seq![style::styled(text@, style)],
{
    let mut line = Line::new();
    line.push(text, style);
    assert(line@ =~= seq![style::styled(text@, style)]);
    line
}

/// The body of the main view.
pub fn body_lines(state: &UiState, view: Option<&StatusView>) -> (r: Vec<Line>)
    requires
        match view {
            Some(v) => state@.status() == Some(v@),
            None => state@.status() is None,
        },
    ensures
        style::drawn(r@) == body(state@),
{
    let mut lines: Vec<Line> = Vec::new();
    match &state.update {
        PollUpdate::Pending => {
            push_line(&mut lines, Line::new());
            push_line(
                &mut lines,
                single("  Waiting for the first poll to complete...", Style::dim()),
            );
        },
        PollUpdate::Failed { message, .. } => {
            let mut text = "    ".to_owned();
            text.append(message.as_str());
            push_line(&mut lines, Line::new());
            push_line(&mut lines, single("  Last poll failed", Style::strong(Color::Red)));
            push_line(&mut lines, Line::new());
            push_line(&mut lines, single(text.as_str(), Style::plain()));
        },
        PollUpdate::Polled { snapshot, .. } => {
            match view {
                Some(v) => {
                    build_status_lines(&mut lines, v, state);
                },
                None => {},
            }
            build_data_lines(&mut lines, snapshot, state);
        },
    }
    assert(style::drawn(lines@) =~= body(state@));
    lines
}

// ---------------------------------------------------------------------
// Footer
// ---------------------------------------------------------------------

/// The message line: the toast, or the write being carried out.
pub open spec fn message_line(ui: Ui) -> Seq<Piece> {
    match ui.toast {
        Some(note) => {
            let (glyph, color) = match note.kind {
                ToastKind::Success => ("✓"@, Color::Green),
                ToastKind::Error => ("✗"@, Color::Red),
            };
            seq![
                style::raw("  "@),
                style::styled(glyph, style::tinted(color)),
                style::raw(" "@),
                style::styled(note.text, style::strong(color)),
            ]
        },
        None => match ui.pending {
            Some(pending) => seq![
                style::raw("  "@),
                style::styled("⌛ "@, style::tinted(Color::Yellow)),
                style::styled(
                    "writing "@ + pending.control.name() + ": "@ + pending.value + "..."@,
                    style::tinted(Color::Yellow),
                ),
            ],
            None => style::blank(),
        },
    }
}

/// What Enter does to the selected control.
pub open spec fn enter_hint(selected: Option<ControlId>) -> Seq<char> {
    match selected {
        Some(control) => if control.toggles() {
            "toggle"@
        } else {
            "edit"@
        },
        None => "—"@,
    }
}

/// The line that tells which keys do what.
pub open spec fn hint_line(ui: Ui) -> Seq<Piece> {
    match ui.mode {
        Mode::Normal => seq![
            style::raw("  "@),
            style::key_name("↑↓"@),
            style::raw(" navigate · "@),
            style::key_name("Enter"@),
            style::raw(" "@),
            style::raw(enter_hint(ui.selected())),
            style::raw(" · "@),
            style::key_name("s"@),
            style::raw(" settings · "@),
            style::key_name("q"@),
            style::raw(" quit"@),
        ],
        Mode::Editing { control, .. } => seq![
            style::raw("  "@),
            style::key_name("↑↓"@),
            style::raw(
                " ±"@ + control::number_text(
                    control,
                    (control.step_parts() * crate::binary32::step29()) as nat,
                ) + " · "@,
            ),
            style::raw("type digits/. · "@),
            style::key_name("Enter"@),
            style::raw(" save · "@),
            style::key_name("Esc"@),
            style::raw(" cancel"@),
        ],
        Mode::Settings(_) => style::blank(),
    }
}

fn toast_line(state: &UiState) -> (r: Line)
    ensures
        r@ == message_line(state@),
{
    let mut line = Line::new();
    match &state.toast {
        Some(t) => {
            let (glyph, color) = match t.kind {
                ToastKind::Success => ("✓", Color::Green),
                ToastKind::Error => ("✗", Color::Red),
            };
            line.push_raw("  ");
            line.push(glyph, Style::tinted(color));
            line.push_raw(" ");
            line.push(t.text.as_str(), Style::strong(color));
        },
        None => match &state.pending_write {
            Some(p) => {
                let mut text = "writing ".to_owned();
                text.append(p.control.label());
                text.append(": ");
                text.append(p.value.as_str());
                text.append("...");
                line.push_raw("  ");
                line.push("⌛ ", Style::tinted(Color::Yellow));
                line.push(text.as_str(), Style::tinted(Color::Yellow));
            },
            None => {},
        },
    }
    assert(line@ =~= message_line(state@));
    line
}

fn keys_line(state: &UiState) -> (r: Line)
    ensures
        r@ == hint_line(state@),
{
    let mut line = Line::new();
    match &state.mode {
        UiMode::Normal => {
            line.push_raw("  ");
            line.push_key("↑↓");
            line.push_raw(" navigate · ");
            line.push_key("Enter");
            line.push_raw(" ");
            line.push_raw(
                match state.selected_control() {
                    Some(c) => if c.is_toggle() {
                        "toggle"
                    } else {
                        "edit"
                    },
                    None => "—",
                },
            );
            line.push_raw(" · ");
            line.push_key("s");
            line.push_raw(" settings · ");
            line.push_key("q");
            line.push_raw(" quit");
        },
        UiMode::Editing(buf) => {
            let mut step = " ±".to_owned();
            step.append(format_for(buf.control, buf.control.step()).as_str());
            step.append(" · ");
            line.push_raw("  ");
            line.push_key("↑↓");
            line.push_raw(step.as_str());
            line.push_raw("type digits/. · ");
            line.push_key("Enter");
            line.push_raw(" save · ");
            line.push_key("Esc");
            line.push_raw(" cancel");
        },
        UiMode::Settings(_) => {},
    }
    assert(line@ =~= hint_line(state@));
    line
}

/// The two lines of the footer: the message, then the keys.
pub fn footer_lines(state: &UiState) -> (r: (Line, Line))
    ensures
        r.0@ == message_line(state@),
        r.1@ == hint_line(state@),
{
    (toast_line(state), keys_line(state))
}

// ---------------------------------------------------------------------
// Laws
// ---------------------------------------------------------------------

proof fn lemma_data_entries(ui: Ui, entries: Seq<SnapshotEntry>, e: SnapshotEntry)
    ensures
        data_entries(ui, entries).contains(e) <==> entries.contains(e) && in_data(ui, e.name@),
    decreases entries.len(),
{
    if entries.len() > 0 {
        let rest = entries.drop_last();
        let kept = data_entries(ui, rest);
        let all = data_entries(ui, entries);
        lemma_data_entries(ui, rest, e);
        if entries.contains(e) && in_data(ui, e.name@) {
            let i = choose|i: int| 0 <= i < entries.len() && entries[i] == e;
            if i < rest.len() {
                assert(rest[i] == e);
                assert(rest.contains(e));
                let j = choose|j: int| 0 <= j < kept.len() && kept[j] == e;
                assert(all[j] == e);
            } else {
                assert(all[kept.len() as int] == e);
            }
        }
        if all.contains(e) {
            let j = choose|j: int| 0 <= j < all.len() && all[j] == e;
            if j < kept.len() {
                assert(kept[j] == e);
                assert(kept.contains(e));
                let i = choose|i: int| 0 <= i < rest.len() && rest[i] == e;
                assert(entries[i] == e);
            } else {
                assert(entries[entries.len() - 1] == e);
            }
        }
    }
}

/// A sensor whose row the user has hidden is in no data section, and hiding
/// the exhaust fan hides both its rows.
pub proof fn law_hidden_rows_are_not_drawn(ui: Ui, entries: Seq<SnapshotEntry>, e: SnapshotEntry)
    requires
        (domain::definition_named(ui.registers, e.name@) matches Some(def)
            && settings::is_sensor(def) && !ui.ui.shows_temperature(e.name@) && e.name@
            != "fan_speed_exhaust_current"@) || (!ui.ui.exhaust_fan && (e.name@
            == "fan_speed_exhaust"@ || e.name@ == "fan_speed_exhaust_current"@)),
    ensures
        !data_entries(ui, entries).contains(e),
{
    lemma_data_entries(ui, entries, e);
}

/// Hiding a sensor does not change which other rows are shown.
pub proof fn law_visibility_is_independent(
    registers: Seq<RegisterDef>,
    ui: UiPreferences,
    hidden: Seq<char>,
    name: Seq<char>,
)
    requires
        name != hidden,
    ensures
        row_visible(
            registers,
            UiPreferences { temperatures: ui.temperatures.insert(hidden, false), ..ui },
            name,
        ) == row_visible(registers, ui, name),
{
}


/// The header counts whole seconds: since the poll, or since the failure, and
/// until the interval is over; a time that lies ahead counts as now.
pub proof fn law_header_counts_seconds(update: PollUpdate, interval_seconds: u64, now: u64)
    ensures
        match update {
            PollUpdate::Pending => poll_pieces(update, interval_seconds, now)[1].text
                == "connecting..."@,
            PollUpdate::Polled { snapshot, polled_at } => exists|ago: nat, left: nat|
                #![trigger text::decimal(ago), text::decimal(left)]
                poll_pieces(update, interval_seconds, now)[1].text == "polled "@ + text::decimal(
                    ago,
                ) + "s ago · next refresh in "@ + text::decimal(left) + "s"@ && (if now
                    >= polled_at {
                    ago * 1_000_000_000 <= now - polled_at < (ago + 1) * 1_000_000_000
                } else {
                    ago == 0
                }) && ({
                    let over = interval_seconds * 1_000_000_000 - if now >= polled_at {
                        now - polled_at
                    } else {
                        0
                    };
                    if over > 0 {
                        left * 1_000_000_000 <= over < (left + 1) * 1_000_000_000
                    } else {
                        left == 0
                    }
                }),
            PollUpdate::Failed { message, failed_at } => exists|ago: nat|
                poll_pieces(update, interval_seconds, now)[1].text == "error "@
                    + #[trigger] text::decimal(ago) + "s ago: "@ + message@ && (if now >= failed_at {
                    ago * 1_000_000_000 <= now - failed_at < (ago + 1) * 1_000_000_000
                } else {
                    ago == 0
                }),
        },
{
    match update {
        PollUpdate::Pending => {},
        PollUpdate::Polled { snapshot, polled_at } => {
            let e = elapsed(polled_at, now);
            let ago = e / 1_000_000_000;
            let left = remaining_seconds(interval_seconds, e);
            assert(poll_pieces(update, interval_seconds, now)[1].text == "polled "@ + text::decimal(
                ago,
            ) + "s ago · next refresh in "@ + text::decimal(left) + "s"@);
        },
        PollUpdate::Failed { message, failed_at } => {
            let ago = elapsed(failed_at, now) / 1_000_000_000;
            assert(poll_pieces(update, interval_seconds, now)[1].text == "error "@ + text::decimal(
                ago,
            ) + "s ago: "@ + message@);
        },
    }
}

/// The header names the endpoint and the unit, and the firmware version where
/// it is known.
pub proof fn law_header_names_the_endpoint(ui: Ui, now: u64)
    ensures
        header(ui, now).len() == 2,
        header(ui, now)[0][0].text == ui.modbus.host + ":"@ + text::decimal(ui.modbus.port as nat)
            + "  unit "@ + text::decimal(ui.modbus.unit_id as nat),
        ui.status() matches Some(s) ==> (s.firmware matches Some(v) ==> header(
            ui,
            now,
        )[1][1].text == text::decimal(v.major as nat) + "."@ + text::decimal(v.minor as nat) + "."@
            + text::decimal(v.patch as nat)),
{
}

/// The power row says ON or OFF: what is being written where the power is being
/// written, what the device reports otherwise, with the transition it is in. A
/// row whose value is being written says so.
pub proof fn law_power_row_tells_the_power(device: DeviceState, ui: Ui)
    ensures
        ({
            let row = power_row(device, ui);
            let writing = ui.pending matches Some(p) && p.control == ControlId::Power;
            let on = if writing {
                ui.pending->0.value == "1"@
            } else {
                device.power_on
            };
            &&& row.len() >= 4
            &&& row[3].text == (if on {
                "ON"@
            } else {
                "OFF"@
            }) + (if !device.transitioning {
                ""@
            } else if on {
                " (starting)"@
            } else {
                " (stopping)"@
            })
            &&& row[3].style.fg == Some(
                if on {
                    Color::Green
                } else {
                    Color::Red
                },
            )
            &&& writing ==> row.len() == 5 && row[4].text == " writing..."@
        }),
{
}

/// The mode row shows the mode that is being written, or else the one that was
/// read, or a dash; under climate control it adds what the device does now.
pub proof fn law_mode_row_tells_the_mode(
    selection: Option<ModeSelection>,
    device: DeviceState,
    ui: Ui,
)
    ensures
        ({
            let row = mode_row(selection, device, ui);
            let writing = ui.pending matches Some(p) && p.control == ControlId::Mode;
            let shown = if writing && ModeSelection::parsed(ui.pending->0.value) is Ok {
                Some(ModeSelection::parsed(ui.pending->0.value)->Ok_0)
            } else {
                selection
            };
            &&& row.len() >= 3
            &&& row[2].text == match shown {
                Some(ModeSelection::Ventilation) => "Ventilation"@,
                Some(ModeSelection::Heating) => "Heating"@,
                Some(ModeSelection::Cooling) => "Cooling"@,
                Some(ModeSelection::Auto) => "Climate"@,
                None => "—"@,
            }
            &&& shown == Some(ModeSelection::Auto) && device.heating_available
                && !device.cooling_available ==> row.len() >= 4 && row[3].text
                == "  (heating now)"@
            &&& shown == Some(ModeSelection::Auto) && !device.heating_available
                && device.cooling_available ==> row.len() >= 4 && row[3].text
                == "  (cooling now)"@
            &&& shown == Some(ModeSelection::Auto) && device.heating_available
                && device.cooling_available ==> row.len() >= 4 && row[3].text == if
                device.active_mode_heating {
                "  (heating now)"@
            } else {
                "  (cooling now)"@
            }
        }),
{
}

/// The setpoint row shows what is typed, or else what is being written, or else
/// what was read, in degrees, or a dash.
pub proof fn law_setpoint_row_tells_the_setpoint(target: Option<i16>, ui: Ui)
    ensures
        ({
            let row = setpoint_row(target, ui);
            &&& row.len() >= 3
            &&& row[2].text == match ui.mode {
                Mode::Editing { control: ControlId::Setpoint, text } => "["@ + text + "█]"@
                    + " °C"@,
                _ => match ui.pending {
                    Some(p) if p.control == ControlId::Setpoint => p.value + " °C"@,
                    _ => match target {
                        Some(t) => domain::RegisterValue::Temperature(t).text() + " °C"@,
                        None => "—"@,
                    },
                },
            }
        }),
{
}

/// Every error has a row, in order, and where there is none a row says so; every
/// note has a row, and where there is none there is no row.
pub proof fn law_every_error_and_note_has_a_row(
    errors: Seq<&'static str>,
    notes: Seq<&'static str>,
    i: int,
)
    ensures
        error_rows(errors).len() == if errors.len() == 0 {
            1
        } else {
            errors.len()
        },
        errors.len() == 0 ==> error_rows(errors)[0].last().text == "none active"@,
        0 <= i < errors.len() ==> error_rows(errors)[i].last().text == errors[i]@,
        note_rows(notes).len() == notes.len(),
        0 <= i < notes.len() ==> note_rows(notes)[i].last().text == notes[i]@,
{
}

/// The device has a power row and a mode row: the one that sets the mode where
/// the mode can be set, the one that tells the running stage otherwise. A
/// priority sensor and an active timer each have a row exactly if there is one.
pub proof fn law_rows_about_the_device(status: Status, ui: Ui)
    ensures
        status.state is None ==> device_rows(status, ui).len() == 0,
        status.state matches Some(d) ==> ({
            let rows = device_rows(status, ui);
            let sensor = d.priority != Priority::NoSensor;
            let timer = d.timer_today || d.timer_week;
            &&& rows.len() == 2 + (if sensor {
                1int
            } else {
                0
            }) + (if timer {
                1int
            } else {
                0
            })
            &&& rows[0] == power_row(d, ui)
            &&& ui.controls.contains(ControlId::Mode) ==> rows[1] == mode_row(
                status.mode_selection,
                d,
                ui,
            )
            &&& !ui.controls.contains(ControlId::Mode) ==> rows[1].len() >= 3 && rows[1][2].text
                == d.running_mode().name()
            &&& sensor ==> rows[2].last().text == d.priority.name()
            &&& timer ==> rows.last().last().text == "timer active ("@ + (if d.timer_today
                && d.timer_week {
                "today, week"@
            } else if d.timer_today {
                "today"@
            } else {
                "week"@
            }) + ")"@
        }),
{
}

/// The data sections show exactly the entries of the poll that the status
/// section does not show, that are no target of another row, that are not
/// hidden, and whose group is not "Controls".
pub proof fn law_entries_of_the_data_sections(ui: Ui, entries: Seq<SnapshotEntry>, e: SnapshotEntry)
    ensures
        data_entries(ui, entries).contains(e) <==> entries.contains(e) && ({
            let name = e.name@;
            &&& name != "firmware_version"@ && name != "state_word_0"@ && name != "state_word_1"@
            &&& name != "error_code"@ && name != "error_code_aux"@ && name != "temp_setpoint"@
            &&& name != "mode_system"@ && name != "fan_speed_supply"@ && name
                != "fan_speed_exhaust"@
            &&& grouping::group_named(ui.registers, name) != "Controls"@
            &&& if name == "fan_speed_exhaust_current"@ {
                ui.ui.exhaust_fan
            } else {
                !(domain::definition_named(ui.registers, name) matches Some(def) && def.kind
                    == domain::RegisterKind::Input && def.value_type
                    == domain::RegisterValueType::TemperatureX10
                    && ui.ui.temperatures.dom().contains(name) && !ui.ui.temperatures[name])
            }
        }),
        data_entries(ui, entries.push(e)) == if in_data(ui, e.name@) {
            data_entries(ui, entries).push(e)
        } else {
            data_entries(ui, entries)
        },
{
    lemma_data_entries(ui, entries, e);
    assert(entries.push(e).drop_last() =~= entries);
    reveal_strlit("fan_speed_exhaust");
    reveal_strlit("fan_speed_exhaust_current");
    assert("fan_speed_exhaust"@.len() != "fan_speed_exhaust_current"@.len());
}

/// The row of an entry shows the label of its register and its value. The row
/// of a fan's speed shows the setpoint of that fan as its target: what is
/// typed, or else what is being written, or else what was read last, or a dash.
pub proof fn law_row_shows_value_and_target(ui: Ui, entries: Seq<SnapshotEntry>, e: SnapshotEntry)
    ensures
        ({
            let row = entry_row(ui, entries, e);
            let supply = e.name@ == "fan_speed_supply_current"@;
            let exhaust = e.name@ == "fan_speed_exhaust_current"@;
            let fan = if supply {
                ControlId::SupplyFan
            } else {
                ControlId::ExhaustFan
            };
            let setpoint = domain::last_named(
                entries,
                if supply {
                    "fan_speed_supply"@
                } else {
                    "fan_speed_exhaust"@
                },
            );
            &&& row.len() >= 3
            &&& row[1].text == text::padded(display_label(ui.registers, e.name@), 18) + "  "@
            &&& row[2].text == report::value_text(e)
            &&& supply || exhaust ==> row.len() >= 5 && row[4].text == match ui.mode {
                Mode::Editing { control, text } if control == fan => "["@ + text + "█]"@,
                _ => match ui.pending {
                    Some(p) if p.control == fan => p.value,
                    _ => match setpoint {
                        Some(entry) => report::value_text(entry),
                        None => "—"@,
                    },
                },
            }
            &&& !supply && !exhaust ==> row.len() == 3
        }),
{
    reveal_strlit("fan_speed_supply_current");
    reveal_strlit("fan_speed_exhaust_current");
    assert("fan_speed_supply_current"@.len() != "fan_speed_exhaust_current"@.len());
}

/// A register is labelled by the display name of its last definition, or by its
/// name.
pub proof fn law_register_is_labelled(registers: Seq<RegisterDef>, name: Seq<char>, i: int)
    ensures
        0 <= i < registers.len() && registers[i].name@ == name && (forall|j: int|
            i < j < registers.len() ==> (#[trigger] registers[j]).name@ != name) ==> display_label(
            registers,
            name,
        ) == match registers[i].display_name {
            Some(label) => label@,
            None => name,
        },
        (forall|j: int| 0 <= j < registers.len() ==> (#[trigger] registers[j]).name@ != name)
            ==> display_label(registers, name) == name,
{
    grouping::law_group_of_a_register(registers, name, i);
}

/// The message line shows the message, in green where something worked and in
/// red where it did not, or else the write that is on its way, or nothing.
pub proof fn law_message_line_tells_what_happened(ui: Ui)
    ensures
        match ui.toast {
            Some(note) => message_line(ui).last().text == note.text
                && message_line(ui).last().style.fg == Some(
                if note.kind == ToastKind::Success {
                    Color::Green
                } else {
                    Color::Red
                },
            ),
            None => match ui.pending {
                Some(p) => message_line(ui).last().text == "writing "@ + p.control.name() + ": "@
                    + p.value + "..."@,
                None => message_line(ui).len() == 0,
            },
        },
{
}

/// The body shows what the latest poll read, or that none has completed, or why
/// it failed.
pub proof fn law_body_follows_the_latest_poll(ui: Ui)
    ensures
        match ui.update {
            PollUpdate::Pending => body(ui).last().last().text
                == "  Waiting for the first poll to complete..."@,
            PollUpdate::Failed { message, failed_at } => body(ui).last().last().text == "    "@
                + message@,
            PollUpdate::Polled { snapshot, polled_at } => ({
                let status = status::status_of(snapshot.entries@);
                let top = status_section(status, ui);
                &&& body(ui) == top + data_sections(ui, snapshot.entries@)
                &&& top.contains(setpoint_row(status.temperature_setpoint, ui))
            }),
        },
{
    match ui.update {
        PollUpdate::Polled { snapshot, polled_at } => {
            let status = status::status_of(snapshot.entries@);
            let at = 1 + device_rows(status, ui).len() as int;
            assert(status_section(status, ui)[at] == setpoint_row(status.temperature_setpoint, ui));
        },
        _ => {},
    }
}


/// The row of a control is marked exactly if the control is selected, and then
/// tells what Enter does, unless its value is being typed or written.
pub proof fn law_control_rows_are_marked(
    device: DeviceState,
    selection: Option<ModeSelection>,
    target: Option<i16>,
    ui: Ui,
)
    ensures
        ({
            let selected = |control: ControlId|
                ui.selection < ui.controls.len() && ui.controls[ui.selection as int] == control;
            let writing = |control: ControlId|
                ui.pending matches Some(p) && p.control == control;
            let typing = ui.mode matches Mode::Editing { control: ControlId::Setpoint, text };
            let marked = |row: Seq<Piece>, on: bool|
                row[0].text == if on {
                    "  ▶ "@
                } else {
                    "    "@
                };
            &&& marked(power_row(device, ui), selected(ControlId::Power))
            &&& marked(mode_row(selection, device, ui), selected(ControlId::Mode))
            &&& marked(setpoint_row(target, ui), selected(ControlId::Setpoint))
            &&& selected(ControlId::Power) && !writing(ControlId::Power) ==> power_row(
                device,
                ui,
            ).last().text == " Enter — toggle"@
            &&& selected(ControlId::Mode) && !writing(ControlId::Mode) ==> mode_row(
                selection,
                device,
                ui,
            ).last().text == " Enter — cycle"@
            &&& selected(ControlId::Setpoint) && !writing(ControlId::Setpoint) && !typing
                ==> setpoint_row(target, ui).last().text == " Enter — edit"@
            &&& writing(ControlId::Mode) ==> mode_row(selection, device, ui).last().text
                == " writing..."@
            &&& writing(ControlId::Setpoint) && !typing ==> setpoint_row(target, ui).last().text
                == " writing..."@
        }),
{
}

/// Every entry of the data sections has its row, below the heading of its group.
pub proof fn law_every_data_entry_is_drawn(ui: Ui, entries: Seq<SnapshotEntry>, e: SnapshotEntry)
    requires
        data_entries(ui, entries).contains(e),
    ensures
        ({
            let group = grouping::group_named(ui.registers, e.name@);
            exists|i: int, j: int|
                0 <= i < j < data_sections(ui, entries).len() && #[trigger] data_sections(
                    ui,
                    entries,
                )[i] == style::section_header(group) && #[trigger] data_sections(ui, entries)[j]
                    == entry_row(ui, entries, e)
        }),
{
    let shown = data_entries(ui, entries);
    let groups = report::entry_groups(shown, ui.registers);
    let order = grouping::distinct(groups);
    let k = choose|k: int| 0 <= k < shown.len() && shown[k] == e;
    let group = groups[k];
    grouping::law_distinct_lists_each_once(groups);
    assert(groups.contains(group));
    assert(order.contains(group));
    let at = choose|a: int| 0 <= a < order.len() && order[a] == group;
    let row = lemma_group_row(ui, entries, shown, k);
    let start = lemma_group_section(ui, entries, shown, order, at);
    let all = data_sections(ui, entries);
    assert(all[start] == style::section_header(group));
    assert(all[start + 1 + row] == entry_row(ui, entries, e));
}

proof fn lemma_group_row(
    ui: Ui,
    entries: Seq<SnapshotEntry>,
    shown: Seq<SnapshotEntry>,
    k: int,
) -> (at: int)
    requires
        0 <= k < shown.len(),
    ensures
        ({
            let rows = group_rows(
                ui,
                entries,
                shown,
                grouping::group_named(ui.registers, shown[k].name@),
            );
            0 <= at < rows.len() && rows[at] == entry_row(ui, entries, shown[k])
        }),
    decreases shown.len(),
{
    let rest = shown.drop_last();
    let group = grouping::group_named(ui.registers, shown[k].name@);
    if k == shown.len() - 1 {
        group_rows(ui, entries, rest, group).len() as int
    } else {
        assert(rest[k] == shown[k]);
        lemma_group_row(ui, entries, rest, k)
    }
}

proof fn lemma_group_section(
    ui: Ui,
    entries: Seq<SnapshotEntry>,
    shown: Seq<SnapshotEntry>,
    order: Seq<Seq<char>>,
    at: int,
) -> (start: int)
    requires
        0 <= at < order.len(),
    ensures
        ({
            let all = group_sections(ui, entries, shown, order);
            let rows = group_rows(ui, entries, shown, order[at]);
            &&& 0 <= start
            &&& start + 1 + rows.len() < all.len()
            &&& all[start] == style::section_header(order[at])
            &&& forall|i: int| 0 <= i < rows.len() ==> all[start + 1 + i] == #[trigger] rows[i]
        }),
    decreases order.len(),
{
    let rest = order.drop_last();
    let before = group_sections(ui, entries, shown, rest);
    if at == order.len() - 1 {
        before.len() as int
    } else {
        assert(rest[at] == order[at]);
        let start = lemma_group_section(ui, entries, shown, rest, at);
        let all = group_sections(ui, entries, shown, order);
        let rows = group_rows(ui, entries, shown, order[at]);
        assert forall|i: int| 0 <= i < rows.len() implies all[start + 1 + i]
            == #[trigger] rows[i] by {
            assert(before[start + 1 + i] == rows[i]);
        }
        start
    }
}


/// Each mode has its own colour, and so has each stage that may run.
pub proof fn law_modes_have_their_colours(mode: ModeSelection, device: DeviceState)
    ensures
        color_of_mode(mode) == match mode {
            ModeSelection::Ventilation => Color::Blue,
            ModeSelection::Heating => Color::Yellow,
            ModeSelection::Cooling => Color::Cyan,
            ModeSelection::Auto => Color::Green,
        },
        running_pieces(device)[0].style.fg == Some(
            match device.running_mode() {
                ActiveMode::Heating => Color::Yellow,
                ActiveMode::Cooling => Color::Cyan,
                ActiveMode::Ventilation => Color::Gray,
            },
        ),
        device.heating_available && device.cooling_available ==> running_pieces(device).last().text
            == "  (heat + cool installed)"@,
        !device.heating_available && !device.cooling_available ==> running_pieces(
            device,
        ).last().text == "  (no thermal stage installed)"@,
        device.heating_available != device.cooling_available ==> running_pieces(device).len() == 1,
{
}

/// The line of keys tells what Enter does to the selected control, and by how
/// much the arrows step the number that is edited.
pub proof fn law_keys_are_told(ui: Ui, control: ControlId, typed: Seq<char>)
    ensures
        ui.mode is Normal ==> hint_line(ui)[5].text == if ui.selection >= ui.controls.len() {
            "—"@
        } else {
            match ui.controls[ui.selection as int] {
                ControlId::Power | ControlId::Mode => "toggle"@,
                _ => "edit"@,
            }
        },
        ui.mode == (Mode::Editing { control, text: typed }) && control == ControlId::Setpoint
            ==> hint_line(ui)[2].text == " ±"@ + domain::tenths_text(5) + " · "@,
        ui.mode == (Mode::Editing { control, text: typed }) && (control == ControlId::SupplyFan
            || control == ControlId::ExhaustFan) ==> hint_line(ui)[2].text == " ±"@ + text::decimal(
            1,
        ) + " · "@,
        ui.mode is Settings ==> hint_line(ui).len() == 0,
{
    let one = crate::binary32::one();
    crate::binary32::lemma_div_mod(
        10 * (0x1000_0000 * crate::binary32::step29()),
        one,
        5,
        0,
    );
    crate::binary32::lemma_div_mod(0x2000_0000 * crate::binary32::step29(), one, 1, 0);
}

} // verus!
