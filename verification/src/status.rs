//! Decoded views of well-known GTC registers.
//!
//! The CLI prints raw register values verbatim, but for the firmware version
//! that is read by its name; this module is the presentation layer the
//! interactive TUI consumes to turn `state_word_0 = 449` into
//! `Power ON, Mode Heating` and `error_code = 0` into `No active errors`.
//!
//! Recognition is by register name. A config that keeps the canonical names
//! (`firmware_version`, `state_word_0`, `state_word_1`, `error_code`,
//! `error_code_aux`) gets the decoded view; anything else falls through to
//! raw rendering in the caller.

use crate::domain::{self, unsigned_of, ModeSelection, RegisterValue, Snapshot, SnapshotEntry};
use crate::text::{self, push_decimal};
use vstd::prelude::*;

verus! {

/// Aggregate decoded status, built from one [`Snapshot`] by
/// [`build_status`]. Every field is independently optional so callers can
/// render whichever portions the user has configured.
#[derive(Debug, Clone, PartialEq)]
pub struct StatusView {
    /// Decoded firmware version, e.g. `5.1.0`.
    pub firmware: Option<FirmwareVersion>,
    /// High-level device state: power, mode, schedules, priorities.
    pub state: Option<DeviceState>,
    /// Current operation phase from `state_word_1`.
    pub phase: Option<OperationPhase>,
    /// Active error labels, decoded from `error_code`. Empty when no
    /// register named `error_code` is present in the snapshot or when the
    /// register reads zero.
    pub errors: Vec<&'static str>,
    /// Informational / warning labels from `error_code_aux`.
    pub notes: Vec<&'static str>,
    /// Air-out temperature setpoint, in tenths of a degree Celsius. Read
    /// from the register named `temp_setpoint`.
    pub temperature_setpoint: Option<i16>,
    /// Selected operation mode, decoded from the register named
    /// `mode_system`.
    pub mode_selection: Option<ModeSelection>,
}

/// Decoded firmware version word.
///
/// The high byte holds major/minor as two nibbles, the low byte holds the
/// patch number as a plain `u8` (so `0x2311` reads as 2.3.17).
#[derive(Debug, Clone, Copy, PartialEq, Eq, Structural)]
pub struct FirmwareVersion {
    /// Major version (high nibble of high byte).
    pub major: u8,
    /// Minor version (low nibble of high byte).
    pub minor: u8,
    /// Patch number (the entire low byte, as a decimal integer).
    pub patch: u8,
}

impl FirmwareVersion {
    /// The version as it is displayed.
    pub open spec fn text(self) -> Seq<char> {
        text::decimal(self.major as nat) + "."@ + text::decimal(self.minor as nat) + "."@
            + text::decimal(self.patch as nat)
    }

    /// The version as `major.minor.patch`.
    pub fn to_string(&self) -> (r: String)
        ensures
            r@ == self.text(),
    {
        let mut out = text::decimal_text(self.major as u64);
        out.append(".");
        push_decimal(&mut out, self.minor as u64);
        out.append(".");
        push_decimal(&mut out, self.patch as u64);
        out
    }
}

/// Decoded `state_word_0` bit field.
#[derive(Debug, Clone, Copy, PartialEq, Eq, Structural)]
pub struct DeviceState {
    /// `true` when the unit is currently powered on.
    pub power_on: bool,
    /// The unit is transitioning to the state encoded in [`Self::power_on`].
    pub transitioning: bool,
    /// Heating mode is installed and configured (bit 6).
    pub heating_available: bool,
    /// Cooling mode is installed and configured (bit 7).
    pub cooling_available: bool,
    /// Currently in heating mode (bit 8). Read in conjunction with
    /// [`Self::heating_available`] and [`Self::cooling_available`] to
    /// distinguish "heating because heating is the only option" from
    /// "currently chosen heating over cooling".
    pub active_mode_heating: bool,
    /// A "next 24 hours" timer entry is active.
    pub timer_today: bool,
    /// A "next 7 days" timer entry is active.
    pub timer_week: bool,
    /// Priority sensor for ventilation control.
    pub priority: Priority,
}

impl DeviceState {
    /// The mode the controller runs in, given what is installed: with both
    /// stages the mode bit decides, with one stage that one runs.
    pub open spec fn running_mode(self) -> ActiveMode {
        if self.heating_available && (!self.cooling_available || self.active_mode_heating) {
            ActiveMode::Heating
        } else if self.cooling_available {
            ActiveMode::Cooling
        } else {
            ActiveMode::Ventilation
        }
    }

    /// The mode the controller is currently running in, accounting for what
    /// is installed.
    pub fn active_mode(&self) -> (r: ActiveMode)
        ensures
            r == self.running_mode(),
    {
        match (self.heating_available, self.cooling_available) {
            (true, true) => {
                if self.active_mode_heating {
                    ActiveMode::Heating
                } else {
                    ActiveMode::Cooling
                }
            },
            (true, false) => ActiveMode::Heating,
            (false, true) => ActiveMode::Cooling,
            (false, false) => ActiveMode::Ventilation,
        }
    }
}

/// Which thermal mode the controller is currently driving.
#[derive(Debug, Clone, Copy, PartialEq, Eq, Structural)]
pub enum ActiveMode {
    /// Heating is active or is the only installed mode.
    Heating,
    /// Cooling is active or is the only installed mode.
    Cooling,
    /// Neither heating nor cooling is installed: ventilation only.
    Ventilation,
}

impl ActiveMode {
    /// The label of the mode.
    pub open spec fn name(self) -> Seq<char> {
        match self {
            ActiveMode::Heating => "Heating"@,
            ActiveMode::Cooling => "Cooling"@,
            ActiveMode::Ventilation => "Ventilation only"@,
        }
    }

    /// Short human-readable label.
    pub fn label(self) -> (r: &'static str)
        ensures
            r@ == self.name(),
    {
        match self {
            ActiveMode::Heating => "Heating",
            ActiveMode::Cooling => "Cooling",
            ActiveMode::Ventilation => "Ventilation only",
        }
    }
}

/// Sensor priority for the ventilation regulator.
#[derive(Debug, Clone, Copy, PartialEq, Eq, Structural)]
pub enum Priority {
    /// No priority sensor: the unit follows the air-temperature setpoint.
    NoSensor,
    /// Humidity sensor takes priority.
    Humidity,
    /// CO₂ sensor takes priority.
    Co2,
    /// Pressure sensor takes priority.
    Pressure,
}

impl Priority {
    /// The label of the priority.
    pub open spec fn name(self) -> Seq<char> {
        match self {
            Priority::NoSensor => "Temperature setpoint"@,
            Priority::Humidity => "Humidity"@,
            Priority::Co2 => "CO₂"@,
            Priority::Pressure => "Pressure"@,
        }
    }

    /// Short human-readable label.
    pub fn label(self) -> (r: &'static str)
        ensures
            r@ == self.name(),
    {
        match self {
            Priority::NoSensor => "Temperature setpoint",
            Priority::Humidity => "Humidity",
            Priority::Co2 => "CO₂",
            Priority::Pressure => "Pressure",
        }
    }
}

/// Current operation phase from `state_word_1` (bits 0..=4).
#[derive(Debug, Clone, Copy, PartialEq, Eq, Structural)]
pub enum OperationPhase {
    /// No transition in progress.
    Idle,
    /// Opening the outside-air damper.
    OpeningDamper,
    /// Pre-heating the heater before starting the fan.
    HeaterPreheating,
    /// Spinning up the fan.
    FanStarting,
    /// "Northern start": slow warm-up sequence for cold climates.
    NorthernStart,
    /// Fan winding down to a stop.
    FanCoasting,
    /// Closing the outside-air damper.
    ClosingDamper,
    /// Purging the electric heater after shut-off.
    ElectricHeaterPurge,
    /// Opening the hot-water valve.
    OpeningHotWaterValve,
    /// Closing the hot-water valve.
    ClosingHotWaterValve,
    /// Opening the cold-water valve.
    OpeningColdWaterValve,
    /// Closing the cold-water valve.
    ClosingColdWaterValve,
    /// Accelerating the recuperator rotor.
    RotorAccelerating,
    /// Any other phase value: the controller runs a stage without a name
    /// here. The bit field is preserved for debugging.
    Unknown(u16),
}

impl OperationPhase {
    /// The label of the phase.
    pub open spec fn name(self) -> Seq<char> {
        match self {
            OperationPhase::Idle => "Idle"@,
            OperationPhase::OpeningDamper => "Opening damper"@,
            OperationPhase::HeaterPreheating => "Heater preheating"@,
            OperationPhase::FanStarting => "Fan starting"@,
            OperationPhase::NorthernStart => "Northern start"@,
            OperationPhase::FanCoasting => "Fan coasting"@,
            OperationPhase::ClosingDamper => "Closing damper"@,
            OperationPhase::ElectricHeaterPurge => "Electric heater purge"@,
            OperationPhase::OpeningHotWaterValve => "Opening hot-water valve"@,
            OperationPhase::ClosingHotWaterValve => "Closing hot-water valve"@,
            OperationPhase::OpeningColdWaterValve => "Opening cold-water valve"@,
            OperationPhase::ClosingColdWaterValve => "Closing cold-water valve"@,
            OperationPhase::RotorAccelerating => "Rotor accelerating"@,
            OperationPhase::Unknown(_) => "Other phase"@,
        }
    }

    /// Short human-readable label.
    pub fn label(&self) -> (r: &'static str)
        ensures
            r@ == self.name(),
    {
        match self {
            OperationPhase::Idle => "Idle",
            OperationPhase::OpeningDamper => "Opening damper",
            OperationPhase::HeaterPreheating => "Heater preheating",
            OperationPhase::FanStarting => "Fan starting",
            OperationPhase::NorthernStart => "Northern start",
            OperationPhase::FanCoasting => "Fan coasting",
            OperationPhase::ClosingDamper => "Closing damper",
            OperationPhase::ElectricHeaterPurge => "Electric heater purge",
            OperationPhase::OpeningHotWaterValve => "Opening hot-water valve",
            OperationPhase::ClosingHotWaterValve => "Closing hot-water valve",
            OperationPhase::OpeningColdWaterValve => "Opening cold-water valve",
            OperationPhase::ClosingColdWaterValve => "Closing cold-water valve",
            OperationPhase::RotorAccelerating => "Rotor accelerating",
            OperationPhase::Unknown(_) => "Other phase",
        }
    }
}

// ---------------------------------------------------------------------
// Bit fields
// ---------------------------------------------------------------------

/// Bit `bit` of `word` is set.
pub open spec fn has_bit(word: u16, bit: u8) -> bool {
    word & (1u16 << bit) != 0
}

fn bit_set(word: u16, bit: u8) -> (r: bool)
    requires
        bit < 16,
    ensures
        r == has_bit(word, bit),
{
    word & (1u16 << bit) != 0
}

/// The bits of `error_code` (input register `0x05`) and their labels.
pub open spec fn error_table() -> Seq<(u8, &'static str)> {
    seq![
        (0u8, "Channel sensor T1 fault (open/short)"),
        (1u8, "Return-water sensor T2 fault (open/short)"),
        (2u8, "Outdoor sensor T3 fault (open/short)"),
        (3u8, "Filter 1 pressure sensor fault"),
        (4u8, "Filter 1 fully clogged"),
        (5u8, "No coolant in system"),
        (6u8, "Frost risk: return water below 5 °C"),
        (7u8, "Frost risk: capillary sensor tripped"),
        (8u8, "Frost risk: channel air below 5 °C"),
        (9u8, "Fan 1 pressure sensor fault"),
        (10u8, "Fan 1 fault"),
        (11u8, "Fire alarm"),
        (13u8, "Heater overheat"),
        (14u8, "Cooler 1 pressure fault"),
        (15u8, "Cooler 2 pressure fault"),
    ]
}

/// The bits of `error_code_aux` (input register `0x06`) and their labels.
/// Most entries here are diagnostic flags rather than hard faults.
pub open spec fn note_table() -> Seq<(u8, &'static str)> {
    seq![
        (4u8, "System overheat (setpoint not reached, heat fully off)"),
        (5u8, "System undercool (setpoint not reached, heat fully on)"),
        (6u8, "Remote-stop input asserted"),
        (7u8, "Auto fan-speed reduction enabled"),
        (10u8, "Northern-start mode active"),
        (11u8, "Recuperator below 0 °C"),
        (12u8, "Recuperator above target temperature"),
        (13u8, "Recuperator icing — preheat active"),
        (14u8, "Recuperator de-icing fan-speed reduction"),
        (15u8, "Smooth speed-reduction mode active"),
    ]
}

/// Bit-to-label map for `error_code` (input register `0x05`).
pub fn error_flags() -> (r: Vec<(u8, &'static str)>)
    ensures
        r@ == error_table(),
        bits_fit(r@),
{
    let r: Vec<(u8, &'static str)> = vec![
        (0, "Channel sensor T1 fault (open/short)"),
        (1, "Return-water sensor T2 fault (open/short)"),
        (2, "Outdoor sensor T3 fault (open/short)"),
        (3, "Filter 1 pressure sensor fault"),
        (4, "Filter 1 fully clogged"),
        (5, "No coolant in system"),
        (6, "Frost risk: return water below 5 °C"),
        (7, "Frost risk: capillary sensor tripped"),
        (8, "Frost risk: channel air below 5 °C"),
        (9, "Fan 1 pressure sensor fault"),
        (10, "Fan 1 fault"),
        (11, "Fire alarm"),
        (13, "Heater overheat"),
        (14, "Cooler 1 pressure fault"),
        (15, "Cooler 2 pressure fault"),
    ];
    assert(r@ =~= error_table());
    r
}

/// Bit-to-label map for `error_code_aux` (input register `0x06`).
pub fn note_flags() -> (r: Vec<(u8, &'static str)>)
    ensures
        r@ == note_table(),
        bits_fit(r@),
{
    let r: Vec<(u8, &'static str)> = vec![
        (4, "System overheat (setpoint not reached, heat fully off)"),
        (5, "System undercool (setpoint not reached, heat fully on)"),
        (6, "Remote-stop input asserted"),
        (7, "Auto fan-speed reduction enabled"),
        (10, "Northern-start mode active"),
        (11, "Recuperator below 0 °C"),
        (12, "Recuperator above target temperature"),
        (13, "Recuperator icing — preheat active"),
        (14, "Recuperator de-icing fan-speed reduction"),
        (15, "Smooth speed-reduction mode active"),
    ];
    assert(r@ =~= note_table());
    r
}

/// Every bit of the table lies in a 16-bit word.
pub open spec fn bits_fit(table: Seq<(u8, &'static str)>) -> bool {
    forall|i: int| 0 <= i < table.len() ==> (#[trigger] table[i]).0 < 16
}

/// The labels of the bits that are set, in the order of the table.
pub open spec fn flags_in(word: u16, table: Seq<(u8, &'static str)>) -> Seq<&'static str>
    decreases table.len(),
{
    if table.len() == 0 {
        Seq::empty()
    } else {
        let before = flags_in(word, table.drop_last());
        if has_bit(word, table.last().0) {
            before.push(table.last().1)
        } else {
            before
        }
    }
}

/// The labels of the bits of `word` that are set, in the order of the table.
pub fn decode_flags(word: u16, table: &[(u8, &'static str)]) -> (r: Vec<&'static str>)
    requires
        bits_fit(table@),
    ensures
        r@ == flags_in(word, table@),
{
    let mut out: Vec<&'static str> = Vec::new();
    let mut i: usize = 0;
    while i < table.len()
        invariant
            i <= table@.len(),
            bits_fit(table@),
            out@ == flags_in(word, table@.take(i as int)),
        decreases table@.len() - i,
    {
        proof {
            let t = table@.take(i + 1);
            assert(t.drop_last() =~= table@.take(i as int));
            assert(t.last() == table@[i as int]);
        }
        if bit_set(word, table[i].0) {
            out.push(table[i].1);
        }
        i = i + 1;
    }
    assert(table@.take(table@.len() as int) =~= table@);
    out
}

/// No label comes out exactly if no bit of the table is set.
pub proof fn law_no_flags(word: u16, table: Seq<(u8, &'static str)>)
    ensures
        flags_in(word, table).len() == 0 <==> forall|i: int|
            0 <= i < table.len() ==> !has_bit(word, (#[trigger] table[i]).0),
    decreases table.len(),
{
    if table.len() > 0 {
        let t = table.drop_last();
        law_no_flags(word, t);
        if flags_in(word, table).len() == 0 {
            assert forall|i: int| 0 <= i < table.len() implies !has_bit(
                word,
                (#[trigger] table[i]).0,
            ) by {
                if i < t.len() {
                    assert(!has_bit(word, t[i].0));
                }
            }
        } else if forall|i: int| 0 <= i < table.len() ==> !has_bit(word, (#[trigger] table[i]).0) {
            assert forall|i: int| 0 <= i < t.len() implies !has_bit(word, (#[trigger] t[i]).0) by {
                assert(!has_bit(word, table[i].0));
            }
            assert(!has_bit(word, table[table.len() - 1].0));
        }
    }
}

/// A register that reads zero raises no flag.
pub proof fn law_zero_raises_nothing(table: Seq<(u8, &'static str)>)
    ensures
        flags_in(0, table).len() == 0,
{
    assert forall|i: int| 0 <= i < table.len() implies !has_bit(0, (#[trigger] table[i]).0) by {
        let bit = table[i].0;
        assert(0u16 & (1u16 << bit) == 0) by (bit_vector);
    }
    law_no_flags(0, table);
}

/// The firmware version that `word` holds.
pub open spec fn firmware_in(word: u16) -> FirmwareVersion {
    FirmwareVersion {
        major: (word / 0x1000) as u8,
        minor: (word / 0x100 % 0x10) as u8,
        patch: (word % 0x100) as u8,
    }
}

/// Decode the firmware version word.
pub fn decode_firmware(word: u16) -> (r: FirmwareVersion)
    ensures
        r == firmware_in(word),
{
    FirmwareVersion {
        major: (word / 0x1000) as u8,
        minor: (word / 0x100 % 0x10) as u8,
        patch: (word % 0x100) as u8,
    }
}

/// The decoded version gives back the whole word.
pub proof fn law_firmware_is_lossless(word: u16)
    ensures
        ({
            let v = firmware_in(word);
            &&& word == v.major * 0x1000 + v.minor * 0x100 + v.patch
            &&& v.major < 16
            &&& v.minor < 16
        }),
{
}

/// The sensor priority in bits 11..=12 of `word`.
pub open spec fn priority_in(word: u16) -> Priority {
    let code = (word >> 11) & 0b11;
    if code == 1 {
        Priority::Humidity
    } else if code == 2 {
        Priority::Co2
    } else if code == 3 {
        Priority::Pressure
    } else {
        Priority::NoSensor
    }
}

/// The device state that `word` holds.
pub open spec fn state_in(word: u16) -> DeviceState {
    DeviceState {
        power_on: has_bit(word, 0),
        transitioning: has_bit(word, 1),
        heating_available: has_bit(word, 6),
        cooling_available: has_bit(word, 7),
        active_mode_heating: has_bit(word, 8),
        timer_today: has_bit(word, 9),
        timer_week: has_bit(word, 10),
        priority: priority_in(word),
    }
}

/// Decode the `state_word_0` bit field.
pub fn decode_state(word: u16) -> (r: DeviceState)
    ensures
        r == state_in(word),
{
    DeviceState {
        power_on: bit_set(word, 0),
        transitioning: bit_set(word, 1),
        heating_available: bit_set(word, 6),
        cooling_available: bit_set(word, 7),
        active_mode_heating: bit_set(word, 8),
        timer_today: bit_set(word, 9),
        timer_week: bit_set(word, 10),
        priority: match (word >> 11) & 0b11 {
            1 => Priority::Humidity,
            2 => Priority::Co2,
            3 => Priority::Pressure,
            _ => Priority::NoSensor,
        },
    }
}

/// The operation phase in bits 0..=4 of `word`.
pub open spec fn phase_in(word: u16) -> OperationPhase {
    let code = word & 0x1F;
    if code == 0 {
        OperationPhase::Idle
    } else if code == 1 {
        OperationPhase::OpeningDamper
    } else if code == 2 {
        OperationPhase::HeaterPreheating
    } else if code == 3 {
        OperationPhase::FanStarting
    } else if code == 4 {
        OperationPhase::NorthernStart
    } else if code == 5 {
        OperationPhase::FanCoasting
    } else if code == 6 {
        OperationPhase::ClosingDamper
    } else if code == 7 {
        OperationPhase::ElectricHeaterPurge
    } else if code == 8 {
        OperationPhase::OpeningHotWaterValve
    } else if code == 9 {
        OperationPhase::ClosingHotWaterValve
    } else if code == 10 {
        OperationPhase::OpeningColdWaterValve
    } else if code == 11 {
        OperationPhase::ClosingColdWaterValve
    } else if code == 12 {
        OperationPhase::RotorAccelerating
    } else {
        OperationPhase::Unknown(code)
    }
}

/// Decode the operation phase of `state_word_1`.
pub fn decode_phase(word: u16) -> (r: OperationPhase)
    ensures
        r == phase_in(word),
{
    match word & 0x1F {
        0 => OperationPhase::Idle,
        1 => OperationPhase::OpeningDamper,
        2 => OperationPhase::HeaterPreheating,
        3 => OperationPhase::FanStarting,
        4 => OperationPhase::NorthernStart,
        5 => OperationPhase::FanCoasting,
        6 => OperationPhase::ClosingDamper,
        7 => OperationPhase::ElectricHeaterPurge,
        8 => OperationPhase::OpeningHotWaterValve,
        9 => OperationPhase::ClosingHotWaterValve,
        10 => OperationPhase::OpeningColdWaterValve,
        11 => OperationPhase::ClosingColdWaterValve,
        12 => OperationPhase::RotorAccelerating,
        other => OperationPhase::Unknown(other),
    }
}

/// The phase depends on the low five bits alone.
pub proof fn law_phase_reads_low_bits(a: u16, b: u16)
    requires
        a & 0x1F == b & 0x1F,
    ensures
        phase_in(a) == phase_in(b),
{
}

// ---------------------------------------------------------------------
// The view of a snapshot
// ---------------------------------------------------------------------

/// The word behind an entry that decodes to an integer.
pub open spec fn word_in(entry: Option<SnapshotEntry>) -> Option<u16> {
    match entry {
        Some(e) => match e.value {
            RegisterValue::U16(w) => Some(w),
            RegisterValue::I16(i) => Some(domain::unsigned(i as int)),
            RegisterValue::Percent(p) => Some(p),
            _ => None,
        },
        None => None,
    }
}

/// The tenths of a degree behind an entry that decodes to a temperature.
pub open spec fn temperature_in(entry: Option<SnapshotEntry>) -> Option<i16> {
    match entry {
        Some(e) => match e.value {
            RegisterValue::Temperature(t) => Some(t),
            _ => None,
        },
        None => None,
    }
}

/// The mode behind an entry that decodes to one.
pub open spec fn mode_in(entry: Option<SnapshotEntry>) -> Option<ModeSelection> {
    match entry {
        Some(e) => match e.value {
            RegisterValue::Mode(m) => Some(m),
            _ => None,
        },
        None => None,
    }
}

/// The word of the first entry with the given name.
pub open spec fn named_word(entries: Seq<SnapshotEntry>, name: Seq<char>) -> Option<u16> {
    word_in(domain::first_named(entries, name))
}

/// The labels that the word of the first entry with the given name raises.
pub open spec fn named_flags(
    entries: Seq<SnapshotEntry>,
    name: Seq<char>,
    table: Seq<(u8, &'static str)>,
) -> Seq<&'static str> {
    match named_word(entries, name) {
        Some(w) => flags_in(w, table),
        None => Seq::empty(),
    }
}

/// What a [`StatusView`] stands for.
#[verifier::ext_equal]
pub struct Status {
    pub firmware: Option<FirmwareVersion>,
    pub state: Option<DeviceState>,
    pub phase: Option<OperationPhase>,
    pub errors: Seq<&'static str>,
    pub notes: Seq<&'static str>,
    pub temperature_setpoint: Option<i16>,
    pub mode_selection: Option<ModeSelection>,
}

impl View for StatusView {
    type V = Status;

    open spec fn view(&self) -> Status {
        Status {
            firmware: self.firmware,
            state: self.state,
            phase: self.phase,
            errors: self.errors@,
            notes: self.notes@,
            temperature_setpoint: self.temperature_setpoint,
            mode_selection: self.mode_selection,
        }
    }
}

/// The decoded status of `entries`.
pub open spec fn status_of(entries: Seq<SnapshotEntry>) -> Status {
    Status {
        firmware: match named_word(entries, "firmware_version"@) {
            Some(w) => Some(firmware_in(w)),
            None => None,
        },
        state: match named_word(entries, "state_word_0"@) {
            Some(w) => Some(state_in(w)),
            None => None,
        },
        phase: match named_word(entries, "state_word_1"@) {
            Some(w) => Some(phase_in(w)),
            None => None,
        },
        errors: named_flags(entries, "error_code"@, error_table()),
        notes: named_flags(entries, "error_code_aux"@, note_table()),
        temperature_setpoint: temperature_in(domain::first_named(entries, "temp_setpoint"@)),
        mode_selection: mode_in(domain::first_named(entries, "mode_system"@)),
    }
}

/// Build a [`StatusView`] from a snapshot.
///
/// Looks up each well-known register by name and decodes it; missing
/// registers leave the corresponding fields `None` / empty without failing.
pub fn build_status(snapshot: &Snapshot) -> (r: StatusView)
    ensures
        r@ == status_of(snapshot.entries@),
{
    StatusView {
        firmware: match find_word(snapshot, "firmware_version") {
            Some(w) => Some(decode_firmware(w)),
            None => None,
        },
        state: match find_word(snapshot, "state_word_0") {
            Some(w) => Some(decode_state(w)),
            None => None,
        },
        phase: match find_word(snapshot, "state_word_1") {
            Some(w) => Some(decode_phase(w)),
            None => None,
        },
        errors: match find_word(snapshot, "error_code") {
            Some(w) => decode_flags(w, error_flags().as_slice()),
            None => Vec::new(),
        },
        notes: match find_word(snapshot, "error_code_aux") {
            Some(w) => decode_flags(w, note_flags().as_slice()),
            None => Vec::new(),
        },
        temperature_setpoint: find_temperature(snapshot, "temp_setpoint"),
        mode_selection: find_mode(snapshot, "mode_system"),
    }
}

/// A snapshot without any of the well-known registers has an empty view.
pub proof fn law_missing_registers_leave_the_view_empty(entries: Seq<SnapshotEntry>)
    requires
        forall|i: int|
            0 <= i < entries.len() ==> {
                let name = (#[trigger] entries[i]).name@;
                &&& name != "firmware_version"@
                &&& name != "state_word_0"@
                &&& name != "state_word_1"@
                &&& name != "error_code"@
                &&& name != "error_code_aux"@
                &&& name != "temp_setpoint"@
                &&& name != "mode_system"@
            },
    ensures
        status_of(entries) == (Status {
            firmware: None,
            state: None,
            phase: None,
            errors: Seq::empty(),
            notes: Seq::empty(),
            temperature_setpoint: None,
            mode_selection: None,
        }),
{
    domain::law_search_finds_the_first(entries, "firmware_version"@);
    domain::law_search_finds_the_first(entries, "state_word_0"@);
    domain::law_search_finds_the_first(entries, "state_word_1"@);
    domain::law_search_finds_the_first(entries, "error_code"@);
    domain::law_search_finds_the_first(entries, "error_code_aux"@);
    domain::law_search_finds_the_first(entries, "temp_setpoint"@);
    domain::law_search_finds_the_first(entries, "mode_system"@);
}

fn find_mode(snapshot: &Snapshot, name: &str) -> (r: Option<ModeSelection>)
    ensures
        r == mode_in(domain::first_named(snapshot.entries@, name@)),
{
    match snapshot.first(name) {
        Some(e) => match e.value {
            RegisterValue::Mode(m) => Some(m),
            _ => None,
        },
        None => None,
    }
}

fn find_temperature(snapshot: &Snapshot, name: &str) -> (r: Option<i16>)
    ensures
        r == temperature_in(domain::first_named(snapshot.entries@, name@)),
{
    match snapshot.first(name) {
        Some(e) => match e.value {
            RegisterValue::Temperature(t) => Some(t),
            _ => None,
        },
        None => None,
    }
}

fn find_word(snapshot: &Snapshot, name: &str) -> (r: Option<u16>)
    ensures
        r == named_word(snapshot.entries@, name@),
{
    match snapshot.first(name) {
        Some(e) => word_of(e),
        None => None,
    }
}

/// The word behind an entry that decodes to an integer.
pub fn word_of(entry: &SnapshotEntry) -> (r: Option<u16>)
    ensures
        r == word_in(Some(*entry)),
{
    match entry.value {
        RegisterValue::U16(w) => Some(w),
        RegisterValue::I16(i) => Some(unsigned_of(i)),
        RegisterValue::Percent(p) => Some(p),
        _ => None,
    }
}


// ---------------------------------------------------------------------
// What the words mean
// ---------------------------------------------------------------------

proof fn lemma_bit(word: u16, bit: u8)
    requires
        bit < 16,
    ensures
        has_bit(word, bit) == (word / place_value(bit) % 2 == 1),
{
    if bit == 0 {
        assert(((word & (1u16 << 0u8)) != 0) == (word / 1 % 2 == 1)) by (bit_vector);
    } else if bit == 1 {
        assert(((word & (1u16 << 1u8)) != 0) == (word / 2 % 2 == 1)) by (bit_vector);
    } else if bit == 2 {
        assert(((word & (1u16 << 2u8)) != 0) == (word / 4 % 2 == 1)) by (bit_vector);
    } else if bit == 3 {
        assert(((word & (1u16 << 3u8)) != 0) == (word / 8 % 2 == 1)) by (bit_vector);
    } else if bit == 4 {
        assert(((word & (1u16 << 4u8)) != 0) == (word / 16 % 2 == 1)) by (bit_vector);
    } else if bit == 5 {
        assert(((word & (1u16 << 5u8)) != 0) == (word / 32 % 2 == 1)) by (bit_vector);
    } else if bit == 6 {
        assert(((word & (1u16 << 6u8)) != 0) == (word / 64 % 2 == 1)) by (bit_vector);
    } else if bit == 7 {
        assert(((word & (1u16 << 7u8)) != 0) == (word / 128 % 2 == 1)) by (bit_vector);
    } else if bit == 8 {
        assert(((word & (1u16 << 8u8)) != 0) == (word / 256 % 2 == 1)) by (bit_vector);
    } else if bit == 9 {
        assert(((word & (1u16 << 9u8)) != 0) == (word / 512 % 2 == 1)) by (bit_vector);
    } else if bit == 10 {
        assert(((word & (1u16 << 10u8)) != 0) == (word / 1024 % 2 == 1)) by (bit_vector);
    } else if bit == 11 {
        assert(((word & (1u16 << 11u8)) != 0) == (word / 2048 % 2 == 1)) by (bit_vector);
    } else if bit == 12 {
        assert(((word & (1u16 << 12u8)) != 0) == (word / 4096 % 2 == 1)) by (bit_vector);
    } else if bit == 13 {
        assert(((word & (1u16 << 13u8)) != 0) == (word / 8192 % 2 == 1)) by (bit_vector);
    } else if bit == 14 {
        assert(((word & (1u16 << 14u8)) != 0) == (word / 16384 % 2 == 1)) by (bit_vector);
    } else if bit == 15 {
        assert(((word & (1u16 << 15u8)) != 0) == (word / 32768 % 2 == 1)) by (bit_vector);
    }
}

/// What bit `bit` counts for in a word.
spec fn place_value(bit: u8) -> u16 {
    match bit {
        0 => 1,
        1 => 2,
        2 => 4,
        3 => 8,
        4 => 16,
        5 => 32,
        6 => 64,
        7 => 128,
        8 => 256,
        9 => 512,
        10 => 1024,
        11 => 2048,
        12 => 4096,
        13 => 8192,
        14 => 16384,
        _ => 0x8000,
    }
}

/// The label, if the digit of `word` that counts for `place` is 1 in binary.
pub open spec fn raised(word: u16, place: u16, label: &'static str) -> Seq<&'static str> {
    if word / place % 2 == 1 {
        seq![label]
    } else {
        Seq::empty()
    }
}

/// Each field of the device state is its own binary digit of the word and
/// depends on no other: the power is the lowest, the transition the next, the
/// installed stages, the running stage and the timers are the seventh to the
/// eleventh; the two above them number the priority sensor.
pub proof fn law_state_fields_are_digits(word: u16)
    ensures
        ({
            let state = state_in(word);
            &&& state.power_on <==> word % 2 == 1
            &&& state.transitioning <==> word / 2 % 2 == 1
            &&& state.heating_available <==> word / 64 % 2 == 1
            &&& state.cooling_available <==> word / 128 % 2 == 1
            &&& state.active_mode_heating <==> word / 256 % 2 == 1
            &&& state.timer_today <==> word / 512 % 2 == 1
            &&& state.timer_week <==> word / 1024 % 2 == 1
            &&& state.priority == Priority::NoSensor <==> word / 2048 % 4 == 0
            &&& state.priority == Priority::Humidity <==> word / 2048 % 4 == 1
            &&& state.priority == Priority::Co2 <==> word / 2048 % 4 == 2
            &&& state.priority == Priority::Pressure <==> word / 2048 % 4 == 3
        }),
{
    lemma_bit(word, 0);
    lemma_bit(word, 1);
    lemma_bit(word, 6);
    lemma_bit(word, 7);
    lemma_bit(word, 8);
    lemma_bit(word, 9);
    lemma_bit(word, 10);
    assert((word >> 11) & 0b11 == word / 2048 % 4) by (bit_vector);
}

/// Two words that agree in the lowest digit agree on the power.
pub proof fn law_power_depends_on_the_lowest_digit(a: u16, b: u16)
    requires
        a % 2 == b % 2,
    ensures
        state_in(a).power_on == state_in(b).power_on,
{
    law_state_fields_are_digits(a);
    law_state_fields_are_digits(b);
}

/// Heating runs where it is installed and either is the only stage or is the
/// chosen one; cooling runs where it is installed and either is the only stage
/// or heating is not the chosen one; without a stage there is ventilation only.
pub proof fn law_running_stage_is_installed(state: DeviceState)
    ensures
        state.running_mode() == ActiveMode::Heating ==> state.heating_available,
        state.running_mode() == ActiveMode::Cooling ==> state.cooling_available,
        state.running_mode() == ActiveMode::Ventilation <==> !state.heating_available
            && !state.cooling_available,
        state.heating_available && state.cooling_available ==> (state.running_mode()
            == ActiveMode::Heating <==> state.active_mode_heating),
{
}

/// The number of a phase in the status word.
pub open spec fn phase_number(phase: OperationPhase) -> int {
    match phase {
        OperationPhase::RotorAccelerating => 12,
        OperationPhase::ClosingColdWaterValve => 11,
        OperationPhase::OpeningColdWaterValve => 10,
        OperationPhase::ClosingHotWaterValve => 9,
        OperationPhase::OpeningHotWaterValve => 8,
        OperationPhase::ElectricHeaterPurge => 7,
        OperationPhase::ClosingDamper => 6,
        OperationPhase::FanCoasting => 5,
        OperationPhase::NorthernStart => 4,
        OperationPhase::FanStarting => 3,
        OperationPhase::HeaterPreheating => 2,
        OperationPhase::OpeningDamper => 1,
        OperationPhase::Idle => 0,
        OperationPhase::Unknown(code) => code as int,
    }
}

/// The phase is the one whose number is the word modulo 32, and has a name
/// exactly up to 12.
pub proof fn law_phase_is_the_word_modulo_32(word: u16)
    ensures
        phase_number(phase_in(word)) == word % 32,
        phase_in(word) is Unknown <==> word % 32 > 12,
{
    assert(word & 0x1F == word % 32) by (bit_vector);
}

proof fn lemma_flags_step(word: u16, table: Seq<(u8, &'static str)>, i: int)
    requires
        0 <= i < table.len(),
        table[i].0 < 16,
    ensures
        flags_in(word, table.take(i + 1)) == flags_in(word, table.take(i)) + raised(
            word,
            place_value(table[i].0),
            table[i].1,
        ),
{
    let t = table.take(i + 1);
    assert(t.drop_last() =~= table.take(i));
    assert(t.last() == table[i]);
    lemma_bit(word, table[i].0);
    assert(flags_in(word, t) =~= flags_in(word, table.take(i)) + raised(
        word,
        place_value(table[i].0),
        table[i].1,
    ));
}

/// Each label of an error is raised by its own binary digit of the word, from
/// the lowest up; the digit that counts for 4096 raises none.
pub proof fn law_error_labels(word: u16)
    ensures
        flags_in(word, error_table()) == raised(word, 1, "Channel sensor T1 fault (open/short)")
            + raised(word, 2, "Return-water sensor T2 fault (open/short)")
            + raised(word, 4, "Outdoor sensor T3 fault (open/short)")
            + raised(word, 8, "Filter 1 pressure sensor fault")
            + raised(word, 16, "Filter 1 fully clogged")
            + raised(word, 32, "No coolant in system")
            + raised(word, 64, "Frost risk: return water below 5 °C")
            + raised(word, 128, "Frost risk: capillary sensor tripped")
            + raised(word, 256, "Frost risk: channel air below 5 °C")
            + raised(word, 512, "Fan 1 pressure sensor fault")
            + raised(word, 1024, "Fan 1 fault")
            + raised(word, 2048, "Fire alarm")
            + raised(word, 8192, "Heater overheat")
            + raised(word, 16384, "Cooler 1 pressure fault")
            + raised(word, 32768, "Cooler 2 pressure fault"),
{
    let t = error_table();
    assert(t.take(0) =~= Seq::empty());
    assert(t.take(15) =~= t);
    lemma_flags_step(word, t, 0);
    lemma_flags_step(word, t, 1);
    lemma_flags_step(word, t, 2);
    lemma_flags_step(word, t, 3);
    lemma_flags_step(word, t, 4);
    lemma_flags_step(word, t, 5);
    lemma_flags_step(word, t, 6);
    lemma_flags_step(word, t, 7);
    lemma_flags_step(word, t, 8);
    lemma_flags_step(word, t, 9);
    lemma_flags_step(word, t, 10);
    lemma_flags_step(word, t, 11);
    lemma_flags_step(word, t, 12);
    lemma_flags_step(word, t, 13);
    lemma_flags_step(word, t, 14);
    assert(flags_in(word, t.take(0)) =~= Seq::empty());
    assert(flags_in(word, t.take(1)) =~= raised(word, place_value(t[0].0), t[0].1));
}

/// Each label of a note is raised by its own binary digit of the word, from the
/// lowest up.
pub proof fn law_note_labels(word: u16)
    ensures
        flags_in(word, note_table()) == raised(word, 16, "System overheat (setpoint not reached, heat fully off)")
            + raised(word, 32, "System undercool (setpoint not reached, heat fully on)")
            + raised(word, 64, "Remote-stop input asserted")
            + raised(word, 128, "Auto fan-speed reduction enabled")
            + raised(word, 1024, "Northern-start mode active")
            + raised(word, 2048, "Recuperator below 0 °C")
            + raised(word, 4096, "Recuperator above target temperature")
            + raised(word, 8192, "Recuperator icing — preheat active")
            + raised(word, 16384, "Recuperator de-icing fan-speed reduction")
            + raised(word, 32768, "Smooth speed-reduction mode active"),
{
    let t = note_table();
    assert(t.take(0) =~= Seq::empty());
    assert(t.take(10) =~= t);
    lemma_flags_step(word, t, 0);
    lemma_flags_step(word, t, 1);
    lemma_flags_step(word, t, 2);
    lemma_flags_step(word, t, 3);
    lemma_flags_step(word, t, 4);
    lemma_flags_step(word, t, 5);
    lemma_flags_step(word, t, 6);
    lemma_flags_step(word, t, 7);
    lemma_flags_step(word, t, 8);
    lemma_flags_step(word, t, 9);
    assert(flags_in(word, t.take(0)) =~= Seq::empty());
    assert(flags_in(word, t.take(1)) =~= raised(word, place_value(t[0].0), t[0].1));
}

/// The word that a value stands for, if it is an integer.
pub open spec fn stands_for(value: RegisterValue, word: u16) -> bool {
    match value {
        RegisterValue::U16(v) => v == word,
        RegisterValue::Percent(v) => v == word,
        RegisterValue::I16(v) => v == word || v == word - 0x1_0000,
        _ => false,
    }
}

/// The status takes each of its fields from the first entry that has the name
/// of the register: the firmware version, the state, the phase, the errors and
/// the notes from the word that the entry holds, the setpoint from a
/// temperature, the mode from a mode.
pub proof fn law_status_reads_the_named_registers(
    entries: Seq<SnapshotEntry>,
    i: int,
    word: u16,
    tenths: i16,
    mode: ModeSelection,
)
    requires
        0 <= i < entries.len(),
        forall|j: int| 0 <= j < i ==> (#[trigger] entries[j]).name@ != entries[i].name@,
    ensures
        ({
            let status = status_of(entries);
            let (name, value) = (entries[i].name@, entries[i].value);
            &&& name == "firmware_version"@ && stands_for(value, word) ==> (
            status.firmware matches Some(v) && v.major * 4096 + v.minor * 256 + v.patch == word
                && v.minor < 16)
            &&& name == "state_word_0"@ && stands_for(value, word) ==> (
            status.state matches Some(d) && d == state_in(word) && (d.power_on <==> word % 2 == 1))
            &&& name == "state_word_1"@ && stands_for(value, word) ==> (
            status.phase matches Some(p) && phase_number(p) == word % 32)
            &&& name == "error_code"@ && stands_for(value, word) ==> status.errors == flags_in(
                word,
                error_table(),
            )
            &&& name == "error_code_aux"@ && stands_for(value, word) ==> status.notes == flags_in(
                word,
                note_table(),
            )
            &&& name == "temp_setpoint"@ && value == RegisterValue::Temperature(tenths)
                ==> status.temperature_setpoint == Some(tenths)
            &&& name == "mode_system"@ && value == RegisterValue::Mode(mode)
                ==> status.mode_selection == Some(mode)
        }),
{
    domain::law_entry_is_found_by_its_name(entries, i);
    law_firmware_is_lossless(word);
    law_state_fields_are_digits(word);
    law_phase_is_the_word_modulo_32(word);
}

} // verus!
