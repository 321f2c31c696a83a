//! Domain types.
//!
//! Pure data structures used throughout the crate: the vocabulary of Modbus
//! registers (kind, value type, definition, decoded value) and the
//! [`Snapshot`] that a poll returns.
//!
//! Errors are stated through their views: [`ValueConversionError`] stands for
//! a [`ValueFault`], [`RegisterDefError`] for a [`DefinitionFault`].

use crate::decimal;
use crate::number::{self, parse_i16, parse_u16};
use crate::text::{self, lowercase, push_decimal, same, signed_text, trim};
use vstd::prelude::*;

verus! {

// ---------------------------------------------------------------------
// Registers
// ---------------------------------------------------------------------

/// Which Modbus address space a register lives in.
///
/// Holdings and coils are read/write; inputs and discrete inputs are
/// read-only. The `writable: true` flag in [`RegisterDef`] is rejected by
/// [`RegisterDef::validate`] for read-only kinds.
#[derive(Debug, Clone, Copy, PartialEq, Eq, Structural)]
pub enum RegisterKind {
    /// 16-bit read/write register (function codes 0x03 read, 0x06 write).
    Holding,
    /// 16-bit read-only register (function code 0x04 read).
    Input,
    /// 1-bit read/write register (function codes 0x01 read, 0x05 write).
    Coil,
    /// 1-bit read-only register (function code 0x02 read).
    Discrete,
}

impl RegisterKind {
    /// Whether this kind permits writes at all.
    pub open spec fn writable_kind(self) -> bool {
        self == RegisterKind::Holding || self == RegisterKind::Coil
    }

    /// Whether this kind is bit-valued.
    pub open spec fn bit_kind(self) -> bool {
        self == RegisterKind::Coil || self == RegisterKind::Discrete
    }

    /// The name of the variant.
    pub open spec fn name(self) -> Seq<char> {
        match self {
            RegisterKind::Holding => "Holding"@,
            RegisterKind::Input => "Input"@,
            RegisterKind::Coil => "Coil"@,
            RegisterKind::Discrete => "Discrete"@,
        }
    }

    /// Whether this kind permits writes at all (independent of the
    /// per-register `writable` flag).
    pub fn is_writable_kind(self) -> (r: bool)
        ensures
            r == self.writable_kind(),
    {
        matches!(self, RegisterKind::Holding | RegisterKind::Coil)
    }

    /// Whether this kind is bit-valued (`true`) or word-valued (`false`).
    pub fn is_bit(self) -> (r: bool)
        ensures
            r == self.bit_kind(),
    {
        matches!(self, RegisterKind::Coil | RegisterKind::Discrete)
    }

    fn variant_name(self) -> (r: &'static str)
        ensures
            r@ == self.name(),
    {
        match self {
            RegisterKind::Holding => "Holding",
            RegisterKind::Input => "Input",
            RegisterKind::Coil => "Coil",
            RegisterKind::Discrete => "Discrete",
        }
    }
}

/// How the raw Modbus word should be interpreted on the wire.
///
/// `Bool` is only valid for bit-valued kinds ([`RegisterKind::Coil`] and
/// [`RegisterKind::Discrete`]). All other variants are word-valued and only
/// valid for [`RegisterKind::Holding`] and [`RegisterKind::Input`].
#[derive(Debug, Clone, Copy, PartialEq, Eq, Structural)]
pub enum RegisterValueType {
    /// Unsigned 16-bit integer, taken as-is.
    U16,
    /// Signed 16-bit integer (the register's word in two's complement).
    I16,
    /// Single-bit boolean. Only valid for coils and discrete inputs.
    Bool,
    /// Signed 16-bit integer in tenths of a degree Celsius.
    TemperatureX10,
    /// Unsigned 16-bit integer in `0..=100`. Out-of-range writes are
    /// rejected; reads outside the range surface as
    /// [`RegisterValue::Percent`] regardless.
    Percent,
    /// System operation mode encoded in the lower two bits of a packed
    /// configuration word (`Dev_Keys_2`, holding `0x57`). The remaining 14
    /// bits carry unrelated installation flags and are preserved by every
    /// write; see [`crate::app::set_value`].
    Mode,
}

impl RegisterValueType {
    /// The name of the variant.
    pub open spec fn name(self) -> Seq<char> {
        match self {
            RegisterValueType::U16 => "U16"@,
            RegisterValueType::I16 => "I16"@,
            RegisterValueType::Bool => "Bool"@,
            RegisterValueType::TemperatureX10 => "TemperatureX10"@,
            RegisterValueType::Percent => "Percent"@,
            RegisterValueType::Mode => "Mode"@,
        }
    }

    fn variant_name(self) -> (r: &'static str)
        ensures
            r@ == self.name(),
    {
        match self {
            RegisterValueType::U16 => "U16",
            RegisterValueType::I16 => "I16",
            RegisterValueType::Bool => "Bool",
            RegisterValueType::TemperatureX10 => "TemperatureX10",
            RegisterValueType::Percent => "Percent",
            RegisterValueType::Mode => "Mode",
        }
    }
}

// ---------------------------------------------------------------------
// Operation mode
// ---------------------------------------------------------------------

/// Selectable system operation mode encoded in `Dev_Keys_2` bits 0..1.
///
/// `0` = ventilation only (no thermal stage), `1` = heating only, `2` =
/// cooling only, `3` = climate control (controller picks heat or cool from
/// the setpoint).
#[derive(Debug, Clone, Copy, PartialEq, Eq, Structural)]
pub enum ModeSelection {
    /// Ventilation only. The unit moves air but the heating and cooling
    /// stages stay off regardless of the setpoint.
    Ventilation,
    /// Heating only.
    Heating,
    /// Cooling only.
    Cooling,
    /// Climate control: the controller picks heat or cool based on the
    /// air-out setpoint.
    Auto,
}

impl ModeSelection {
    /// Mask of the bits this value occupies inside `Dev_Keys_2`.
    pub const BIT_MASK: u16 = 0b11;

    /// The two bits that stand for this mode.
    pub open spec fn bits(self) -> u16 {
        match self {
            ModeSelection::Ventilation => 0,
            ModeSelection::Heating => 1,
            ModeSelection::Cooling => 2,
            ModeSelection::Auto => 3,
        }
    }

    /// The mode that the low two bits of `word` stand for.
    pub open spec fn in_word(word: u16) -> ModeSelection {
        let bits = word & ModeSelection::BIT_MASK;
        if bits == 0 {
            ModeSelection::Ventilation
        } else if bits == 1 {
            ModeSelection::Heating
        } else if bits == 2 {
            ModeSelection::Cooling
        } else {
            ModeSelection::Auto
        }
    }

    /// The short lower-case label.
    pub open spec fn name(self) -> Seq<char> {
        match self {
            ModeSelection::Ventilation => "ventilation"@,
            ModeSelection::Heating => "heating"@,
            ModeSelection::Cooling => "cooling"@,
            ModeSelection::Auto => "auto"@,
        }
    }

    /// The mode that the word `s` names, in lower case: a label, an alias or
    /// the register's integer.
    pub open spec fn named(s: Seq<char>) -> Option<ModeSelection> {
        if s == "ventilation"@ || s == "vent"@ || s == "0"@ {
            Some(ModeSelection::Ventilation)
        } else if s == "heating"@ || s == "heat"@ || s == "1"@ {
            Some(ModeSelection::Heating)
        } else if s == "cooling"@ || s == "cool"@ || s == "2"@ {
            Some(ModeSelection::Cooling)
        } else if s == "auto"@ || s == "automatic"@ || s == "climate"@ || s == "3"@ {
            Some(ModeSelection::Auto)
        } else {
            None
        }
    }

    /// What the typed text `raw` selects.
    pub open spec fn parsed(raw: Seq<char>) -> Result<ModeSelection, ValueFault> {
        let word = text::lower(text::trimmed(raw));
        match ModeSelection::named(word) {
            Some(mode) => Ok(mode),
            None => Err(
                ValueFault::Parse(
                    "expected ventilation/heating/cooling/auto, got `"@ + word + "`"@,
                ),
            ),
        }
    }

    /// Decode the low two bits of `word` into a mode selection.
    pub fn from_word(word: u16) -> (r: ModeSelection)
        ensures
            r == ModeSelection::in_word(word),
            r.bits() == word & ModeSelection::BIT_MASK,
    {
        proof {
            lemma_mask_is_small(word);
        }
        match word & ModeSelection::BIT_MASK {
            0 => ModeSelection::Ventilation,
            1 => ModeSelection::Heating,
            2 => ModeSelection::Cooling,
            _ => ModeSelection::Auto,
        }
    }

    /// Encode this mode as a 2-bit value suitable for OR-ing into the packed
    /// register.
    pub fn to_bits(self) -> (r: u16)
        ensures
            r == self.bits(),
    {
        match self {
            ModeSelection::Ventilation => 0,
            ModeSelection::Heating => 1,
            ModeSelection::Cooling => 2,
            ModeSelection::Auto => 3,
        }
    }

    /// Short lower-case English label used by [`Self::parse`] and the CLI
    /// display path.
    pub fn label(self) -> (r: &'static str)
        ensures
            r@ == self.name(),
    {
        match self {
            ModeSelection::Ventilation => "ventilation",
            ModeSelection::Heating => "heating",
            ModeSelection::Cooling => "cooling",
            ModeSelection::Auto => "auto",
        }
    }

    /// Parse a CLI or actor-command string into a [`ModeSelection`].
    ///
    /// Accepts the canonical labels and the raw register integers
    /// `0`/`1`/`2`/`3`, case-insensitively. Aliases: `vent` for ventilation,
    /// `heat` for heating, `cool` for cooling, `automatic` and `climate` for
    /// auto.
    ///
    /// # Errors
    /// Returns [`ValueConversionError::Parse`] for any other input.
    pub fn parse(raw: &str) -> (r: Result<ModeSelection, ValueConversionError>)
        ensures
            text::outcome(r) == ModeSelection::parsed(raw@),
    {
        let word = lowercase(trim(raw));
        let w = word.as_str();
        if same(w, "ventilation") || same(w, "vent") || same(w, "0") {
            Ok(ModeSelection::Ventilation)
        } else if same(w, "heating") || same(w, "heat") || same(w, "1") {
            Ok(ModeSelection::Heating)
        } else if same(w, "cooling") || same(w, "cool") || same(w, "2") {
            Ok(ModeSelection::Cooling)
        } else if same(w, "auto") || same(w, "automatic") || same(w, "climate") || same(w, "3") {
            Ok(ModeSelection::Auto)
        } else {
            let mut message = "expected ventilation/heating/cooling/auto, got `".to_owned();
            message.append(w);
            message.append("`");
            Err(ValueConversionError::Parse(message))
        }
    }
}

proof fn lemma_mask_is_small(word: u16)
    ensures
        word & ModeSelection::BIT_MASK <= 3,
{
    assert(word & 0b11 <= 3) by (bit_vector);
}

/// A mode survives being written into a word and read back.
pub proof fn law_mode_bits_round_trip(mode: ModeSelection)
    ensures
        ModeSelection::in_word(mode.bits()) == mode,
        mode.bits() <= ModeSelection::BIT_MASK,
{
    assert(0u16 & 0b11 == 0 && 1u16 & 0b11 == 1 && 2u16 & 0b11 == 2 && 3u16 & 0b11 == 3)
        by (bit_vector);
}

/// Decoding reads the low two bits and nothing else.
pub proof fn law_mode_reads_low_bits(a: u16, b: u16)
    requires
        a & ModeSelection::BIT_MASK == b & ModeSelection::BIT_MASK,
    ensures
        ModeSelection::in_word(a) == ModeSelection::in_word(b),
{
}

// ---------------------------------------------------------------------
// Register definitions
// ---------------------------------------------------------------------

/// A register definition of the catalogue.
///
/// Validate with [`RegisterDef::validate`] before use.
#[derive(Debug, PartialEq, Eq)]
pub struct RegisterDef {
    /// Stable identifier: what the CLI passes to `set <name> <value>`.
    /// Uniqueness across the register list is checked at config load.
    pub name: String,
    /// Which Modbus address space the register lives in.
    pub kind: RegisterKind,
    /// Zero-based Modbus address.
    pub address: u16,
    /// How to decode the raw word for display and parse strings on `set`.
    pub value_type: RegisterValueType,
    /// Whether the CLI accepts `set` against this register. Always rejected
    /// for [`RegisterKind::Input`] and [`RegisterKind::Discrete`].
    pub writable: bool,
    /// Free-form display string appended after the value.
    pub unit: Option<String>,
    /// Optional section label used by sectioned interfaces. Registers
    /// without one are placed in an "Other" section.
    pub group: Option<String>,
    /// Optional human-friendly label used by the interactive TUI. When
    /// `None`, the TUI falls back to [`Self::name`].
    pub display_name: Option<String>,
}

impl Clone for RegisterDef {
    fn clone(&self) -> (r: RegisterDef)
        ensures
            r == *self,
    {
        RegisterDef {
            name: self.name.clone(),
            kind: self.kind,
            address: self.address,
            value_type: self.value_type,
            writable: self.writable,
            unit: self.unit.clone(),
            group: self.group.clone(),
            display_name: self.display_name.clone(),
        }
    }
}

/// What a [`RegisterDefError`] stands for.
pub enum DefinitionFault {
    /// `writable: true` on a kind that has no write function code.
    WritableOnReadOnlyKind { name: Seq<char>, kind: RegisterKind },
    /// Value type does not match the bit-ness of the kind.
    ValueTypeKindMismatch {
        name: Seq<char>,
        kind: RegisterKind,
        value_type: RegisterValueType,
    },
}

impl DefinitionFault {
    /// The fault in words.
    pub open spec fn text(self) -> Seq<char> {
        match self {
            DefinitionFault::WritableOnReadOnlyKind { name, kind } => "register `"@ + name
                + "`: kind `"@ + kind.name() + "` is read-only and cannot be `writable: true`"@,
            DefinitionFault::ValueTypeKindMismatch { name, kind, value_type } => "register `"@
                + name + "`: value type `"@ + value_type.name() + "` is incompatible with kind `"@
                + kind.name() + "`"@,
        }
    }
}

/// Errors surfaced by [`RegisterDef::validate`].
#[derive(Debug, PartialEq, Eq)]
pub enum RegisterDefError {
    /// `writable: true` on a kind that has no write function code.
    WritableOnReadOnlyKind {
        /// Register name that triggered the error.
        name: String,
        /// The offending kind.
        kind: RegisterKind,
    },
    /// Value type does not match the bit-ness of the kind.
    ValueTypeKindMismatch {
        /// Register name that triggered the error.
        name: String,
        /// The kind under which the value type is invalid.
        kind: RegisterKind,
        /// The offending value type.
        value_type: RegisterValueType,
    },
}

impl View for RegisterDefError {
    type V = DefinitionFault;

    open spec fn view(&self) -> DefinitionFault {
        match *self {
            RegisterDefError::WritableOnReadOnlyKind { name, kind } => {
                DefinitionFault::WritableOnReadOnlyKind { name: name@, kind }
            },
            RegisterDefError::ValueTypeKindMismatch { name, kind, value_type } => {
                DefinitionFault::ValueTypeKindMismatch { name: name@, kind, value_type }
            },
        }
    }
}

impl RegisterDefError {
    /// The error in words.
    pub fn to_string(&self) -> (r: String)
        ensures
            r@ == self@.text(),
    {
        let mut out = "register `".to_owned();
        match self {
            RegisterDefError::WritableOnReadOnlyKind { name, kind } => {
                out.append(name.as_str());
                out.append("`: kind `");
                out.append(kind.variant_name());
                out.append("` is read-only and cannot be `writable: true`");
            },
            RegisterDefError::ValueTypeKindMismatch { name, kind, value_type } => {
                out.append(name.as_str());
                out.append("`: value type `");
                out.append(value_type.variant_name());
                out.append("` is incompatible with kind `");
                out.append(kind.variant_name());
                out.append("`");
            },
        }
        out
    }
}

impl RegisterDef {
    /// The first rule that the definition breaks.
    pub open spec fn fault(self) -> Option<DefinitionFault> {
        if self.writable && !self.kind.writable_kind() {
            Some(
                DefinitionFault::WritableOnReadOnlyKind { name: self.name@, kind: self.kind },
            )
        } else if (self.value_type == RegisterValueType::Bool) != self.kind.bit_kind() {
            Some(
                DefinitionFault::ValueTypeKindMismatch {
                    name: self.name@,
                    kind: self.kind,
                    value_type: self.value_type,
                },
            )
        } else {
            None
        }
    }

    /// The definition is consistent: only a writable kind is `writable`, and
    /// bits go with bit-valued kinds.
    pub open spec fn valid(self) -> bool {
        &&& self.writable ==> self.kind.writable_kind()
        &&& (self.value_type == RegisterValueType::Bool) == self.kind.bit_kind()
    }

    /// Validate kind/value-type/writable consistency.
    ///
    /// # Errors
    /// Returns [`RegisterDefError::WritableOnReadOnlyKind`] if `writable` is
    /// set on an input or discrete-input register, and
    /// [`RegisterDefError::ValueTypeKindMismatch`] if the value type is
    /// incompatible with the kind (e.g. `Bool` on a holding register).
    pub fn validate(&self) -> (r: Result<(), RegisterDefError>)
        ensures
            text::outcome(r) == match self.fault() {
                None => Ok(()),
                Some(fault) => Err(fault),
            },
            r is Ok <==> self.valid(),
    {
        if self.writable && !self.kind.is_writable_kind() {
            return Err(
                RegisterDefError::WritableOnReadOnlyKind {
                    name: self.name.clone(),
                    kind: self.kind,
                },
            );
        }
        let value_is_bit = matches!(self.value_type, RegisterValueType::Bool);
        if value_is_bit != self.kind.is_bit() {
            return Err(
                RegisterDefError::ValueTypeKindMismatch {
                    name: self.name.clone(),
                    kind: self.kind,
                    value_type: self.value_type,
                },
            );
        }
        Ok(())
    }
}


// ---------------------------------------------------------------------
// Values
// ---------------------------------------------------------------------

/// What a [`ValueConversionError`] stands for.
pub enum ValueFault {
    /// The string did not parse as the expected numeric or boolean form.
    Parse(Seq<char>),
    /// The parsed value lies outside the register's allowed range.
    OutOfRange { value: Seq<char>, reason: Seq<char> },
    /// Tried to decode a word for a bit-valued type.
    BitTypeNotConvertible,
    /// Tried to decode a bit for a word-valued type.
    WordTypeNotConvertible,
}

impl ValueFault {
    /// The fault in words.
    pub open spec fn text(self) -> Seq<char> {
        match self {
            ValueFault::Parse(detail) => "could not parse value: "@ + detail,
            ValueFault::OutOfRange { value, reason } => "value `"@ + value + "` out of range: "@
                + reason,
            ValueFault::BitTypeNotConvertible => {
                "bit-valued type cannot decode from a 16-bit word"@
            },
            ValueFault::WordTypeNotConvertible => {
                "word-valued type cannot decode from a single bit"@
            },
        }
    }
}

/// Errors raised by the conversion helpers on [`RegisterValueType`].
#[derive(Debug, PartialEq, Eq)]
pub enum ValueConversionError {
    /// The string did not parse as the expected numeric or boolean form.
    Parse(String),
    /// The parsed value lies outside the register's allowed range.
    OutOfRange {
        /// The original input that was rejected.
        value: String,
        /// Human-readable reason (e.g. "percent must be in 0..=100").
        reason: &'static str,
    },
    /// Tried to decode a word for a bit-valued type.
    BitTypeNotConvertible,
    /// Tried to decode a bit for a word-valued type.
    WordTypeNotConvertible,
}

impl View for ValueConversionError {
    type V = ValueFault;

    open spec fn view(&self) -> ValueFault {
        match *self {
            ValueConversionError::Parse(detail) => ValueFault::Parse(detail@),
            ValueConversionError::OutOfRange { value, reason } => ValueFault::OutOfRange {
                value: value@,
                reason: reason@,
            },
            ValueConversionError::BitTypeNotConvertible => ValueFault::BitTypeNotConvertible,
            ValueConversionError::WordTypeNotConvertible => ValueFault::WordTypeNotConvertible,
        }
    }
}

impl ValueConversionError {
    /// The error in words.
    pub fn to_string(&self) -> (r: String)
        ensures
            r@ == self@.text(),
    {
        match self {
            ValueConversionError::Parse(detail) => {
                let mut out = "could not parse value: ".to_owned();
                out.append(detail.as_str());
                out
            },
            ValueConversionError::OutOfRange { value, reason } => {
                let mut out = "value `".to_owned();
                out.append(value.as_str());
                out.append("` out of range: ");
                out.append(*reason);
                out
            },
            ValueConversionError::BitTypeNotConvertible => {
                "bit-valued type cannot decode from a 16-bit word".to_owned()
            },
            ValueConversionError::WordTypeNotConvertible => {
                "word-valued type cannot decode from a single bit".to_owned()
            },
        }
    }
}

/// The integer that `word` stands for in two's complement.
pub open spec fn signed(word: u16) -> int {
    if word < 0x8000 {
        word as int
    } else {
        word - 0x1_0000
    }
}

/// The word that stands for `i` in two's complement, for an `i` that fits.
pub open spec fn unsigned(i: int) -> u16 {
    if i < 0 {
        (i + 0x1_0000) as u16
    } else {
        i as u16
    }
}

/// Reads `word` in two's complement.
pub fn signed_of(word: u16) -> (r: i16)
    ensures
        r == signed(word),
{
    if word < 0x8000 {
        word as i16
    } else {
        (word as i32 - 0x1_0000) as i16
    }
}

/// Writes `i` in two's complement.
pub fn unsigned_of(i: i16) -> (r: u16)
    ensures
        r == unsigned(i as int),
{
    if i < 0 {
        (i as i32 + 0x1_0000) as u16
    } else {
        i as u16
    }
}

/// Two's complement loses nothing in either direction.
pub proof fn law_signed_round_trip(word: u16, i: i16)
    ensures
        unsigned(signed(word)) == word,
        signed(unsigned(i as int)) == i,
        -0x8000 <= signed(word) <= 0x7FFF,
{
}

/// `i` tenths with one decimal place.
pub open spec fn tenths_text(i: int) -> Seq<char> {
    let size = if i < 0 {
        -i
    } else {
        i
    };
    let digits = text::decimal((size / 10) as nat) + "."@ + text::decimal((size % 10) as nat);
    if i < 0 {
        "-"@ + digits
    } else {
        digits
    }
}

/// A decoded register value, ready for display or further computation.
#[derive(Debug, Clone, Copy, PartialEq, Eq, Structural)]
pub enum RegisterValue {
    /// Raw 16-bit unsigned.
    U16(u16),
    /// 16-bit signed.
    I16(i16),
    /// Coil / discrete-input bit.
    Bool(bool),
    /// Temperature in tenths of a degree Celsius.
    Temperature(i16),
    /// Percent, `0..=100` under valid devices.
    Percent(u16),
    /// Decoded mode selection from `Dev_Keys_2` bits 0..1.
    Mode(ModeSelection),
}

impl RegisterValue {
    /// The value as it is displayed.
    pub open spec fn text(self) -> Seq<char> {
        match self {
            RegisterValue::U16(v) => text::decimal(v as nat),
            RegisterValue::I16(v) => text::signed_decimal(v as int),
            RegisterValue::Bool(true) => "on"@,
            RegisterValue::Bool(false) => "off"@,
            RegisterValue::Temperature(t) => tenths_text(t as int),
            RegisterValue::Percent(v) => text::decimal(v as nat),
            RegisterValue::Mode(m) => m.name(),
        }
    }

    /// The value as it is displayed: integers in decimal, bits as `on` and
    /// `off`, temperatures in degrees with one decimal place, modes by their
    /// label.
    pub fn to_string(&self) -> (r: String)
        ensures
            r@ == self.text(),
    {
        match self {
            RegisterValue::U16(v) => text::decimal_text(*v as u64),
            RegisterValue::I16(v) => signed_text(*v),
            RegisterValue::Bool(true) => "on".to_owned(),
            RegisterValue::Bool(false) => "off".to_owned(),
            RegisterValue::Temperature(t) => temperature_text(*t),
            RegisterValue::Percent(v) => text::decimal_text(*v as u64),
            RegisterValue::Mode(m) => m.label().to_owned(),
        }
    }
}

impl RegisterValue {
    /// The percentage, if it is one that no valid device reports.
    pub fn odd_percentage(&self) -> (r: Option<u16>)
        ensures
            r == match *self {
                RegisterValue::Percent(v) => if v > 100 {
                    Some(v)
                } else {
                    None
                },
                _ => None,
            },
    {
        match self {
            RegisterValue::Percent(v) => {
                if *v > 100 {
                    Some(*v)
                } else {
                    None
                }
            },
            _ => None,
        }
    }
}

/// `t` tenths of a degree, in degrees with one decimal place.
pub fn temperature_text(t: i16) -> (r: String)
    ensures
        r@ == tenths_text(t as int),
{
    let size: u64 = if t < 0 {
        (-(t as i32)) as u64
    } else {
        t as u64
    };
    let mut out = String::new();
    if t < 0 {
        out.append("-");
    }
    push_decimal(&mut out, size / 10);
    out.append(".");
    push_decimal(&mut out, size % 10);
    assert(out@ =~= tenths_text(t as int));
    out
}

/// The bit that the word `s` names, in lower case.
pub open spec fn bit_named(s: Seq<char>) -> Option<bool> {
    if s == "true"@ || s == "on"@ || s == "1"@ {
        Some(true)
    } else if s == "false"@ || s == "off"@ || s == "0"@ {
        Some(false)
    } else {
        None
    }
}

/// What is wrong with the typed integer `raw`: an integer outside
/// `min..=max` is told apart from a text that is none.
pub open spec fn integer_fault(
    raw: Seq<char>,
    fault: number::IntFault,
    min: int,
    max: int,
    reason: Seq<char>,
) -> ValueFault {
    match number::numeral(text::trimmed(raw)) {
        Some(v) if v < min || v > max => ValueFault::OutOfRange { value: raw, reason },
        _ => ValueFault::Parse(fault.text()),
    }
}

/// What is wrong with the typed integer `raw`.
fn integer_error(
    raw: &str,
    fault: number::IntFault,
    min: i32,
    max: i32,
    reason: &'static str,
) -> (r: ValueConversionError)
    ensures
        r@ == integer_fault(raw@, fault, min as int, max as int, reason@),
{
    let trimmed = trim(raw);
    let outside = number::is_numeral(trimmed) && match number::parse_integer(
        trimmed,
        -0x8000_0000,
        0x7FFF_FFFF,
    ) {
        Ok(v) => v < min as i128 || v > max as i128,
        Err(_) => true,
    };
    proof {
        number::law_integer_is_a_numeral_in_range(trimmed@, -0x8000_0000, 0x7FFF_FFFF);
    }
    if outside {
        ValueConversionError::OutOfRange { value: raw.to_owned(), reason }
    } else {
        ValueConversionError::Parse(fault.message().to_owned())
    }
}

/// The word for a typed temperature: the text is read as a single-precision
/// number of degrees, multiplied by ten in single precision and rounded to
/// the nearest integer.
pub open spec fn temperature_word(raw: Seq<char>) -> Result<u16, ValueFault> {
    let out_of_range = Err(
        ValueFault::OutOfRange { value: raw, reason: "scaled value exceeds i16"@ },
    );
    match decimal::number(text::trimmed(raw)) {
        decimal::Number::Empty => Err(
            ValueFault::Parse("cannot parse float from empty string"@),
        ),
        decimal::Number::Invalid => Err(ValueFault::Parse("invalid float literal"@)),
        decimal::Number::NotANumber => out_of_range,
        decimal::Number::Infinite { negative } => out_of_range,
        decimal::Number::Finite { negative, num, den } => {
            let size = decimal::tenths_of(crate::binary32::nearest(num, den)) as int;
            let scaled = if negative {
                -size
            } else {
                size
            };
            if -0x8000 <= scaled <= 0x7FFF {
                Ok(unsigned(scaled))
            } else {
                out_of_range
            }
        },
    }
}

impl RegisterValueType {
    /// The value that a word of this type stands for.
    pub open spec fn decoded_word(self, word: u16) -> Result<RegisterValue, ValueFault> {
        match self {
            RegisterValueType::U16 => Ok(RegisterValue::U16(word)),
            RegisterValueType::I16 => Ok(RegisterValue::I16(signed(word) as i16)),
            RegisterValueType::TemperatureX10 => Ok(
                RegisterValue::Temperature(signed(word) as i16),
            ),
            RegisterValueType::Percent => Ok(RegisterValue::Percent(word)),
            RegisterValueType::Mode => Ok(RegisterValue::Mode(ModeSelection::in_word(word))),
            RegisterValueType::Bool => Err(ValueFault::BitTypeNotConvertible),
        }
    }

    /// The value that a bit of this type stands for.
    pub open spec fn decoded_bit(self, bit: bool) -> Result<RegisterValue, ValueFault> {
        match self {
            RegisterValueType::Bool => Ok(RegisterValue::Bool(bit)),
            _ => Err(ValueFault::WordTypeNotConvertible),
        }
    }

    /// The word that the typed text `raw` stands for.
    pub open spec fn parsed_word(self, raw: Seq<char>) -> Result<u16, ValueFault> {
        let trimmed = text::trimmed(raw);
        match self {
            RegisterValueType::U16 => match number::u16_of(trimmed) {
                Ok(v) => Ok(v as u16),
                Err(fault) => Err(integer_fault(raw, fault, 0, 0xFFFF, "value must be in 0..=65535"@)),
            },
            RegisterValueType::I16 => match number::i16_of(trimmed) {
                Ok(v) => Ok(unsigned(v)),
                Err(fault) => Err(integer_fault(raw, fault, -0x8000, 0x7FFF, "value must be in -32768..=32767"@)),
            },
            RegisterValueType::TemperatureX10 => temperature_word(raw),
            RegisterValueType::Percent => match number::u16_of(trimmed) {
                Ok(v) => if v > 100 {
                    Err(
                        ValueFault::OutOfRange {
                            value: raw,
                            reason: "percent must be in 0..=100"@,
                        },
                    )
                } else {
                    Ok(v as u16)
                },
                Err(fault) => Err(integer_fault(raw, fault, 0, 100, "percent must be in 0..=100"@)),
            },
            RegisterValueType::Mode => match ModeSelection::parsed(raw) {
                Ok(mode) => Ok(mode.bits()),
                Err(fault) => Err(fault),
            },
            RegisterValueType::Bool => Err(ValueFault::BitTypeNotConvertible),
        }
    }

    /// The bit that the typed text `raw` stands for.
    pub open spec fn parsed_bit(self, raw: Seq<char>) -> Result<bool, ValueFault> {
        let word = text::lower(text::trimmed(raw));
        if self != RegisterValueType::Bool {
            Err(ValueFault::WordTypeNotConvertible)
        } else {
            match bit_named(word) {
                Some(bit) => Ok(bit),
                None => Err(
                    ValueFault::Parse("expected true/false/on/off/1/0, got `"@ + word + "`"@),
                ),
            }
        }
    }

    /// Decode a single Modbus word into a typed [`RegisterValue`].
    ///
    /// Only valid for word-valued types: on [`RegisterValueType::Bool`] it
    /// returns [`ValueConversionError::BitTypeNotConvertible`].
    ///
    /// # Errors
    /// See [`ValueConversionError`].
    pub fn decode_word(self, word: u16) -> (r: Result<RegisterValue, ValueConversionError>)
        ensures
            text::outcome(r) == self.decoded_word(word),
    {
        match self {
            RegisterValueType::U16 => Ok(RegisterValue::U16(word)),
            RegisterValueType::I16 => Ok(RegisterValue::I16(signed_of(word))),
            RegisterValueType::TemperatureX10 => Ok(RegisterValue::Temperature(signed_of(word))),
            RegisterValueType::Percent => Ok(RegisterValue::Percent(word)),
            RegisterValueType::Mode => Ok(RegisterValue::Mode(ModeSelection::from_word(word))),
            RegisterValueType::Bool => Err(ValueConversionError::BitTypeNotConvertible),
        }
    }

    /// Decode a single coil/discrete bit into a typed [`RegisterValue`].
    ///
    /// # Errors
    /// Returns [`ValueConversionError::WordTypeNotConvertible`] for
    /// word-valued types.
    pub fn decode_bit(self, bit: bool) -> (r: Result<RegisterValue, ValueConversionError>)
        ensures
            text::outcome(r) == self.decoded_bit(bit),
    {
        match self {
            RegisterValueType::Bool => Ok(RegisterValue::Bool(bit)),
            _ => Err(ValueConversionError::WordTypeNotConvertible),
        }
    }

    /// Parse a CLI string into the raw `u16` to put on the wire (for
    /// word-valued types).
    ///
    /// # Errors
    /// Returns [`ValueConversionError::Parse`] for malformed input,
    /// [`ValueConversionError::OutOfRange`] for values outside the
    /// representable range, and
    /// [`ValueConversionError::BitTypeNotConvertible`] when called on
    /// [`RegisterValueType::Bool`].
    pub fn parse_word(self, raw: &str) -> (r: Result<u16, ValueConversionError>)
        ensures
            text::outcome(r) == self.parsed_word(raw@),
    {
        let trimmed = trim(raw);
        match self {
            RegisterValueType::U16 => match parse_u16(trimmed) {
                Ok(v) => Ok(v),
                Err(fault) => Err(integer_error(raw, fault, 0, 0xFFFF, "value must be in 0..=65535")),
            },
            RegisterValueType::I16 => match parse_i16(trimmed) {
                Ok(v) => Ok(unsigned_of(v)),
                Err(fault) => Err(integer_error(raw, fault, -0x8000, 0x7FFF, "value must be in -32768..=32767")),
            },
            RegisterValueType::TemperatureX10 => parse_temperature(raw),
            RegisterValueType::Percent => match parse_u16(trimmed) {
                Ok(v) => {
                    if v > 100 {
                        return Err(
                            ValueConversionError::OutOfRange {
                                value: raw.to_owned(),
                                reason: "percent must be in 0..=100",
                            },
                        );
                    }
                    Ok(v)
                },
                Err(fault) => Err(integer_error(raw, fault, 0, 100, "percent must be in 0..=100")),
            },
            RegisterValueType::Mode => match ModeSelection::parse(raw) {
                Ok(mode) => Ok(mode.to_bits()),
                Err(error) => Err(error),
            },
            RegisterValueType::Bool => Err(ValueConversionError::BitTypeNotConvertible),
        }
    }

    /// Parse a CLI string into a bit value (for [`RegisterValueType::Bool`]).
    ///
    /// Accepts `true/false`, `on/off`, `1/0`, case-insensitively.
    ///
    /// # Errors
    /// Returns [`ValueConversionError::Parse`] for any unrecognised spelling
    /// and [`ValueConversionError::WordTypeNotConvertible`] when called on a
    /// word-valued type.
    pub fn parse_bit(self, raw: &str) -> (r: Result<bool, ValueConversionError>)
        ensures
            text::outcome(r) == self.parsed_bit(raw@),
    {
        if !matches!(self, RegisterValueType::Bool) {
            return Err(ValueConversionError::WordTypeNotConvertible);
        }
        let word = lowercase(trim(raw));
        let w = word.as_str();
        if same(w, "true") || same(w, "on") || same(w, "1") {
            Ok(true)
        } else if same(w, "false") || same(w, "off") || same(w, "0") {
            Ok(false)
        } else {
            let mut message = "expected true/false/on/off/1/0, got `".to_owned();
            message.append(w);
            message.append("`");
            Err(ValueConversionError::Parse(message))
        }
    }
}

fn scaled_out_of_range(raw: &str) -> (r: Result<u16, ValueConversionError>)
    ensures
        text::outcome(r) == Err::<u16, ValueFault>(
            ValueFault::OutOfRange { value: raw@, reason: "scaled value exceeds i16"@ },
        ),
{
    Err(
        ValueConversionError::OutOfRange {
            value: raw.to_owned(),
            reason: "scaled value exceeds i16",
        },
    )
}

/// Parse a typed temperature into its word.
fn parse_temperature(raw: &str) -> (r: Result<u16, ValueConversionError>)
    ensures
        text::outcome(r) == temperature_word(raw@),
{
    let (negative, size) = match decimal::read(trim(raw)) {
        decimal::Reading::Empty => {
            return Err(
                ValueConversionError::Parse("cannot parse float from empty string".to_owned()),
            );
        },
        decimal::Reading::Invalid => {
            return Err(ValueConversionError::Parse("invalid float literal".to_owned()));
        },
        decimal::Reading::NotANumber => {
            return scaled_out_of_range(raw);
        },
        decimal::Reading::Infinite { negative } => {
            return scaled_out_of_range(raw);
        },
        decimal::Reading::Finite { negative, size } => (negative, size),
    };
    match decimal::tenths(size) {
        None => scaled_out_of_range(raw),
        Some(t) => {
            let scaled: i64 = if negative {
                -(t as i64)
            } else {
                t as i64
            };
            if scaled < -0x8000 || scaled > 0x7FFF {
                return scaled_out_of_range(raw);
            }
            Ok(unsigned_of(scaled as i16))
        },
    }
}

// ---------------------------------------------------------------------
// What is displayed can be typed
// ---------------------------------------------------------------------

/// Every mode is parsed from its own label.
pub proof fn law_mode_label_parses(mode: ModeSelection)
    ensures
        ModeSelection::parsed(mode.name()) == Ok::<ModeSelection, ValueFault>(mode),
{
    reveal_strlit("ventilation");
    reveal_strlit("heating");
    reveal_strlit("cooling");
    reveal_strlit("auto");
    reveal_strlit("vent");
    reveal_strlit("heat");
    reveal_strlit("cool");
    reveal_strlit("automatic");
    reveal_strlit("0");
    reveal_strlit("1");
    reveal_strlit("2");
    let s = mode.name();
    text::lemma_already_trimmed(s);
    assert(text::lower(s) =~= s);
    assert(s[0] == 'a' ==> s[1] == 'u');
}

/// Parsing a mode ignores the case of its letters.
pub proof fn law_mode_parse_ignores_case(a: Seq<char>, b: Seq<char>)
    requires
        text::lower(text::trimmed(a)) == text::lower(text::trimmed(b)),
    ensures
        ModeSelection::parsed(a) == ModeSelection::parsed(b),
        RegisterValueType::Bool.parsed_bit(a) == RegisterValueType::Bool.parsed_bit(b),
{
}

pub proof fn lemma_signed_decimal_trimmed(i: int)
    ensures
        text::trimmed(text::signed_decimal(i)) == text::signed_decimal(i),
{
    let n = if i < 0 {
        (-i) as nat
    } else {
        i as nat
    };
    let s = text::signed_decimal(i);
    number::lemma_decimal_digits(n);
    let d = text::decimal(n);
    assert(text::is_digit(d[0]) && text::is_digit(d[d.len() - 1]));
    assert(s.last() == d[d.len() - 1]);
    text::lemma_already_trimmed(s);
}

pub proof fn lemma_tenths_text_trimmed(i: int)
    ensures
        text::trimmed(tenths_text(i)) == tenths_text(i),
{
    reveal_strlit("-");
    let size = (if i < 0 {
        -i
    } else {
        i
    }) as nat;
    let (a, b) = (text::decimal(size / 10), text::decimal(size % 10));
    number::lemma_decimal_digits(size / 10);
    number::lemma_decimal_digits(size % 10);
    assert(text::is_digit(a[0]) && text::is_digit(b[b.len() - 1]));
    let s = tenths_text(i);
    assert(s.last() == b[b.len() - 1]);
    assert(i >= 0 ==> s[0] == a[0]);
    text::lemma_already_trimmed(s);
}

/// A word of a numeric type, decoded, displayed and typed back in, is the
/// same word; of a percentage this holds up to 100, of a mode for the two
/// bits that belong to it.
pub proof fn law_displayed_word_parses(value_type: RegisterValueType, word: u16)
    requires
        value_type != RegisterValueType::Bool,
        value_type == RegisterValueType::Percent ==> word <= 100,
    ensures
        value_type.decoded_word(word) is Ok,
        value_type.parsed_word(value_type.decoded_word(word)->Ok_0.text()) == Ok::<
            u16,
            ValueFault,
        >(
            if value_type == RegisterValueType::Mode {
                word & ModeSelection::BIT_MASK
            } else {
                word
            },
        ),
{
    let i = signed(word);
    match value_type {
        RegisterValueType::U16 | RegisterValueType::Percent => {
            lemma_signed_decimal_trimmed(word as int);
            number::law_printed_integer_reads_back(word as int, 0, 0xFFFF);
        },
        RegisterValueType::I16 => {
            lemma_signed_decimal_trimmed(i);
            number::law_printed_integer_reads_back(i, -0x8000, 0x7FFF);
        },
        RegisterValueType::TemperatureX10 => {
            let size = (if i < 0 {
                -i
            } else {
                i
            }) as nat;
            lemma_tenths_text_trimmed(i);
            decimal::law_printed_tenths_stand_for_themselves(size, i < 0);
            decimal::law_tenths_survive_single_precision(size);
        },
        RegisterValueType::Mode => {
            lemma_mask_is_small(word);
            law_mode_label_parses(ModeSelection::in_word(word));
        },
        RegisterValueType::Bool => {},
    }
}

/// Whatever is typed, a word for a percentage lies in 0..=100 and a word for
/// a mode in its two bits.
pub proof fn law_parsed_word_is_allowed(raw: Seq<char>)
    ensures
        RegisterValueType::Percent.parsed_word(raw) matches Ok(word) ==> word <= 100,
        RegisterValueType::Mode.parsed_word(raw) matches Ok(word) ==> word
            <= ModeSelection::BIT_MASK,
{
    number::law_integer_in_range(text::trimmed(raw), 0, 0xFFFF);
}

/// A typed integer is refused as out of range exactly if it has the form of an
/// integer and lies outside the range of the type.
pub proof fn law_out_of_range_is_told_apart(value_type: RegisterValueType, raw: Seq<char>)
    requires
        value_type == RegisterValueType::U16 || value_type == RegisterValueType::I16 || value_type
            == RegisterValueType::Percent,
    ensures
        (value_type.parsed_word(raw) matches Err(fault) && fault is OutOfRange) <==> (
        number::numeral(text::trimmed(raw)) matches Some(v) && match value_type {
            RegisterValueType::I16 => v < -0x8000 || v > 0x7FFF,
            RegisterValueType::Percent => v < 0 || v > 100,
            _ => v < 0 || v > 0xFFFF,
        }),
        value_type.parsed_word(raw) matches Err(ValueFault::OutOfRange { value, reason }) ==> value
            == raw,
{
    let s = text::trimmed(raw);
    number::law_integer_is_a_numeral_in_range(s, 0, 0xFFFF);
    number::law_integer_is_a_numeral_in_range(s, -0x8000, 0x7FFF);
}

/// A bit, displayed and typed back in, is the same bit.
pub proof fn law_displayed_bit_parses(bit: bool)
    ensures
        RegisterValueType::Bool.parsed_bit(RegisterValue::Bool(bit).text()) == Ok::<
            bool,
            ValueFault,
        >(bit),
{
    reveal_strlit("on");
    reveal_strlit("off");
    reveal_strlit("true");
    reveal_strlit("1");
    let s = RegisterValue::Bool(bit).text();
    text::lemma_already_trimmed(s);
    assert(text::lower(s) =~= s);
}

// ---------------------------------------------------------------------
// Looking up by name
// ---------------------------------------------------------------------

/// The first of `items` with the given name.
pub open spec fn first_by<T>(
    items: Seq<T>,
    name_of: spec_fn(T) -> Seq<char>,
    name: Seq<char>,
) -> Option<T>
    decreases items.len(),
{
    if items.len() == 0 {
        None
    } else if name_of(items[0]) == name {
        Some(items[0])
    } else {
        first_by(items.skip(1), name_of, name)
    }
}

proof fn lemma_first_by<T>(items: Seq<T>, name_of: spec_fn(T) -> Seq<char>, name: Seq<char>)
    ensures
        match first_by(items, name_of, name) {
            Some(x) => exists|i: int|
                0 <= i < items.len() && items[i] == x && name_of(x) == name && (forall|j: int|
                    0 <= j < i ==> name_of(#[trigger] items[j]) != name),
            None => forall|i: int| 0 <= i < items.len() ==> name_of(#[trigger] items[i]) != name,
        },
    decreases items.len(),
{
    if items.len() > 0 && name_of(items[0]) != name {
        let rest = items.skip(1);
        lemma_first_by(rest, name_of, name);
        match first_by(rest, name_of, name) {
            Some(x) => {
                let k = choose|i: int|
                    0 <= i < rest.len() && rest[i] == x && name_of(x) == name && (forall|j: int|
                        0 <= j < i ==> name_of(#[trigger] rest[j]) != name);
                assert(items[k + 1] == x);
                assert forall|j: int| 0 <= j < k + 1 implies name_of(#[trigger] items[j])
                    != name by {
                    if j > 0 {
                        assert(name_of(rest[j - 1]) != name);
                    }
                }
            },
            None => {
                assert forall|i: int| 0 <= i < items.len() implies name_of(#[trigger] items[i])
                    != name by {
                    if i > 0 {
                        assert(name_of(rest[i - 1]) != name);
                    }
                }
            },
        }
    } else if items.len() > 0 {
        assert(name_of(items[0]) == name);
    }
}

/// The first of `registers` with the given name.
pub open spec fn definition_named(
    registers: Seq<RegisterDef>,
    name: Seq<char>,
) -> Option<RegisterDef> {
    first_by(registers, |d: RegisterDef| d.name@, name)
}

/// The first of `registers` with the given name (case-sensitive, exact
/// match).
pub fn find_definition<'a>(registers: &'a [RegisterDef], name: &str) -> (r: Option<
    &'a RegisterDef,
>)
    ensures
        match definition_named(registers@, name@) {
            Some(d) => r matches Some(x) && *x == d,
            None => r is None,
        },
{
    let mut i: usize = 0;
    assert(registers@.skip(0) =~= registers@);
    while i < registers.len()
        invariant
            i <= registers@.len(),
            definition_named(registers@, name@) == definition_named(
                registers@.skip(i as int),
                name@,
            ),
        decreases registers@.len() - i,
    {
        let ghost rest = registers@.skip(i as int);
        assert(rest[0] == registers@[i as int]);
        if same(registers[i].name.as_str(), name) {
            return Some(&registers[i]);
        }
        assert(rest.skip(1) =~= registers@.skip(i + 1));
        i = i + 1;
    }
    None
}

/// Looking up a name finds a register of that name, the first one, or tells
/// that there is none.
pub proof fn law_lookup_finds_the_first(registers: Seq<RegisterDef>, name: Seq<char>)
    ensures
        match definition_named(registers, name) {
            Some(d) => exists|i: int|
                0 <= i < registers.len() && registers[i] == d && d.name@ == name && (forall|j: int|
                    0 <= j < i ==> (#[trigger] registers[j]).name@ != name),
            None => forall|i: int|
                0 <= i < registers.len() ==> (#[trigger] registers[i]).name@ != name,
        },
{
    lemma_first_by(registers, |d: RegisterDef| d.name@, name);
}

/// No two of `registers` have the same name.
pub open spec fn distinct_names(registers: Seq<RegisterDef>) -> bool {
    forall|i: int, j: int|
        0 <= i < j < registers.len() ==> (#[trigger] registers[i]).name@ != (
        #[trigger] registers[j]).name@
}

/// Where names are unique, looking up the name of a register finds that
/// register.
pub proof fn law_unique_name_is_found(registers: Seq<RegisterDef>, i: int)
    requires
        distinct_names(registers),
        0 <= i < registers.len(),
    ensures
        definition_named(registers, registers[i].name@) == Some(registers[i]),
{
    law_lookup_finds_the_first(registers, registers[i].name@);
    match definition_named(registers, registers[i].name@) {
        Some(d) => {
            let k = choose|k: int|
                0 <= k < registers.len() && registers[k] == d && d.name@ == registers[i].name@ && (
                forall|j: int|
                    0 <= j < k ==> (#[trigger] registers[j]).name@ != registers[i].name@);
            assert(registers[k].name@ == registers[i].name@);
            if k < i {
                assert(registers[k].name@ != registers[i].name@);
            } else if i < k {
                assert(registers[i].name@ != registers[k].name@);
            }
        },
        None => {
            assert(registers[i].name@ != registers[i].name@);
        },
    }
}

// ---------------------------------------------------------------------
// Snapshots
// ---------------------------------------------------------------------

/// One entry in a [`Snapshot`]: a register name paired with its decoded value
/// and the display unit lifted from the [`RegisterDef`].
#[derive(Debug, Clone, PartialEq)]
pub struct SnapshotEntry {
    /// Register name (as declared in the config).
    pub name: String,
    /// Decoded value.
    pub value: RegisterValue,
    /// Optional unit string (already stripped of leading whitespace).
    pub unit: Option<String>,
}

/// What a [`SnapshotEntry`] stands for.
pub struct Reading {
    pub name: Seq<char>,
    pub value: RegisterValue,
    pub unit: Option<Seq<char>>,
}

impl View for SnapshotEntry {
    type V = Reading;

    open spec fn view(&self) -> Reading {
        Reading { name: self.name@, value: self.value, unit: text::optional(self.unit) }
    }
}

/// The result of a single poll across the register map.
///
/// Entries appear in the same order as the registers in the config; that
/// makes the CLI output stable and diff-friendly.
#[derive(Debug, Clone, PartialEq)]
pub struct Snapshot {
    /// Ordered list of decoded register values.
    pub entries: Vec<SnapshotEntry>,
}

impl Snapshot {
    /// Construct an empty snapshot.
    pub fn new() -> (r: Snapshot)
        ensures
            r.entries@ == Seq::<SnapshotEntry>::empty(),
    {
        Snapshot { entries: Vec::new() }
    }
}

/// The first of `entries` with the given name.
pub open spec fn first_named(
    entries: Seq<SnapshotEntry>,
    name: Seq<char>,
) -> Option<SnapshotEntry> {
    first_by(entries, |e: SnapshotEntry| e.name@, name)
}

/// The last of `entries` with the given name.
pub open spec fn last_named(entries: Seq<SnapshotEntry>, name: Seq<char>) -> Option<SnapshotEntry>
    decreases entries.len(),
{
    if entries.len() == 0 {
        None
    } else if entries.last().name@ == name {
        Some(entries.last())
    } else {
        last_named(entries.drop_last(), name)
    }
}

/// Searching a snapshot finds an entry of that name, the first one, or tells
/// that there is none.
pub proof fn law_search_finds_the_first(entries: Seq<SnapshotEntry>, name: Seq<char>)
    ensures
        match first_named(entries, name) {
            Some(e) => exists|i: int|
                0 <= i < entries.len() && entries[i] == e && e.name@ == name && (forall|j: int|
                    0 <= j < i ==> (#[trigger] entries[j]).name@ != name),
            None => forall|i: int| 0 <= i < entries.len() ==> (#[trigger] entries[i]).name@ != name,
        },
{
    lemma_first_by(entries, |e: SnapshotEntry| e.name@, name);
}

impl Snapshot {
    /// The first entry with the given name.
    pub fn first(&self, name: &str) -> (r: Option<&SnapshotEntry>)
        ensures
            match first_named(self.entries@, name@) {
                Some(e) => r matches Some(x) && *x == e,
                None => r is None,
            },
    {
        let mut i: usize = 0;
        assert(self.entries@.skip(0) =~= self.entries@);
        while i < self.entries.len()
            invariant
                i <= self.entries@.len(),
                first_named(self.entries@, name@) == first_named(
                    self.entries@.skip(i as int),
                    name@,
                ),
            decreases self.entries@.len() - i,
        {
            let ghost rest = self.entries@.skip(i as int);
            assert(rest[0] == self.entries@[i as int]);
            if same(self.entries[i].name.as_str(), name) {
                return Some(&self.entries[i]);
            }
            assert(rest.skip(1) =~= self.entries@.skip(i + 1));
            i = i + 1;
        }
        None
    }

    /// The last entry with the given name.
    pub fn last(&self, name: &str) -> (r: Option<&SnapshotEntry>)
        ensures
            match last_named(self.entries@, name@) {
                Some(e) => r matches Some(x) && *x == e,
                None => r is None,
            },
    {
        let mut i: usize = self.entries.len();
        assert(self.entries@.take(i as int) =~= self.entries@);
        while i > 0
            invariant
                i <= self.entries@.len(),
                last_named(self.entries@, name@) == last_named(
                    self.entries@.take(i as int),
                    name@,
                ),
            decreases i,
        {
            let ghost rest = self.entries@.take(i as int);
            assert(rest.last() == self.entries@[i - 1]);
            if same(self.entries[i - 1].name.as_str(), name) {
                return Some(&self.entries[i - 1]);
            }
            assert(rest.drop_last() =~= self.entries@.take(i - 1));
            i = i - 1;
        }
        None
    }
}

impl Default for Snapshot {
    /// The empty snapshot.
    fn default() -> (r: Snapshot)
        ensures
            r.entries@ == Seq::<SnapshotEntry>::empty(),
    {
        Snapshot::new()
    }
}


// ---------------------------------------------------------------------
// What the types mean
// ---------------------------------------------------------------------

/// The four modes are numbered from 0 to 3, in the order ventilation, heating,
/// cooling, climate control, and a word selects the mode whose number is its
/// remainder modulo 4.
pub proof fn law_mode_is_the_word_modulo_four(word: u16, mode: ModeSelection)
    ensures
        mode.bits() < 4,
        ModeSelection::in_word(word) == mode <==> word % 4 == mode.bits(),
        mode == ModeSelection::Ventilation <==> mode.bits() == 0,
        mode == ModeSelection::Heating <==> mode.bits() == 1,
        mode == ModeSelection::Cooling <==> mode.bits() == 2,
        mode == ModeSelection::Auto <==> mode.bits() == 3,
{
    assert(word & 0b11 == word % 4) by (bit_vector);
}

/// The number that the register holds for a mode can be typed to select it.
pub proof fn law_mode_number_parses(mode: ModeSelection)
    ensures
        ModeSelection::parsed(text::decimal(mode.bits() as nat)) == Ok::<ModeSelection, ValueFault>(
            mode,
        ),
{
    let s = text::decimal(mode.bits() as nat);
    reveal_strlit("ventilation");
    reveal_strlit("heating");
    reveal_strlit("cooling");
    reveal_strlit("auto");
    reveal_strlit("vent");
    reveal_strlit("heat");
    reveal_strlit("cool");
    reveal_strlit("automatic");
    reveal_strlit("climate");
    reveal_strlit("0");
    reveal_strlit("1");
    reveal_strlit("2");
    reveal_strlit("3");
    assert(s.len() == 1 && s[0] == text::digit_char(mode.bits() as nat));
    text::lemma_already_trimmed(s);
    assert(text::lower(s) =~= s);
    assert(mode == ModeSelection::Ventilation ==> s =~= "0"@);
    assert(mode == ModeSelection::Heating ==> s =~= "1"@);
    assert(mode == ModeSelection::Cooling ==> s =~= "2"@);
    assert(mode == ModeSelection::Auto ==> s =~= "3"@);
}

/// Whatever is typed, it selects a mode exactly if, without the white space
/// around it and in lower case, it is the mode's label, one of its aliases or
/// its number: `vent` abbreviates ventilation, `heat` heating, `cool` cooling,
/// and `automatic` and `climate` stand for auto.
pub proof fn law_mode_words(raw: Seq<char>)
    ensures
        ({
            let typed = text::lower(text::trimmed(raw));
            let selects = |mode: ModeSelection|
                ModeSelection::parsed(raw) == Ok::<ModeSelection, ValueFault>(mode);
            &&& selects(ModeSelection::Ventilation) <==> typed == "ventilation"@ || typed == "vent"@
                || typed == "0"@
            &&& selects(ModeSelection::Heating) <==> typed == "heating"@ || typed == "heat"@
                || typed == "1"@
            &&& selects(ModeSelection::Cooling) <==> typed == "cooling"@ || typed == "cool"@
                || typed == "2"@
            &&& selects(ModeSelection::Auto) <==> typed == "auto"@ || typed == "automatic"@
                || typed == "climate"@ || typed == "3"@
        }),
{
    reveal_strlit("ventilation");
    reveal_strlit("heating");
    reveal_strlit("cooling");
    reveal_strlit("auto");
    reveal_strlit("vent");
    reveal_strlit("heat");
    reveal_strlit("cool");
    reveal_strlit("automatic");
    reveal_strlit("climate");
    reveal_strlit("0");
    reveal_strlit("1");
    reveal_strlit("2");
    reveal_strlit("3");
    let (vent, v, v0) = ("ventilation"@, "vent"@, "0"@);
    let (heating, h, h1) = ("heating"@, "heat"@, "1"@);
    let (cooling, c, c2) = ("cooling"@, "cool"@, "2"@);
    let (auto_label, a, cl, a3) = ("auto"@, "automatic"@, "climate"@, "3"@);
    assert(v0[0] != h1[0] && v0[0] != c2[0] && v0[0] != a3[0]);
    assert(h1[0] != c2[0] && h1[0] != a3[0] && c2[0] != a3[0]);
    assert(vent[0] == 'v' && v[0] == 'v' && heating[0] == 'h' && h[0] == 'h');
    assert(cooling[0] == 'c' && cooling[1] == 'o' && c[0] == 'c' && c[1] == 'o');
    assert(auto_label[0] == 'a' && a[0] == 'a' && cl[0] == 'c' && cl[1] == 'l');
}

/// Whatever is typed, it sets a bit exactly if, without the white space around
/// it and in lower case, it is `true`, `on` or `1`, and clears it exactly if it
/// is `false`, `off` or `0`. No other type takes a bit.
pub proof fn law_bit_words(value_type: RegisterValueType, raw: Seq<char>)
    ensures
        ({
            let typed = text::lower(text::trimmed(raw));
            let gives = |bit: bool| value_type.parsed_bit(raw) == Ok::<bool, ValueFault>(bit);
            &&& gives(true) <==> value_type == RegisterValueType::Bool && (typed == "true"@
                || typed == "on"@ || typed == "1"@)
            &&& gives(false) <==> value_type == RegisterValueType::Bool && (typed == "false"@
                || typed == "off"@ || typed == "0"@)
            &&& value_type != RegisterValueType::Bool ==> value_type.parsed_bit(raw) == Err::<
                bool,
                ValueFault,
            >(ValueFault::WordTypeNotConvertible)
        }),
{
    reveal_strlit("true");
    reveal_strlit("on");
    reveal_strlit("1");
    reveal_strlit("false");
    reveal_strlit("off");
    reveal_strlit("0");
    let (t, n, o) = ("true"@, "on"@, "1"@);
    let (f, d, z) = ("false"@, "off"@, "0"@);
    assert(t[0] == 't' && n[1] == 'n' && o[0] == '1' && f[0] == 'f' && d[1] == 'f' && z[0] == '0');
    assert(n.len() == 2 && d.len() == 3);
}

/// A word decodes to the number it is: unsigned as it stands, signed and
/// temperature as the number in `-32768..=32767` that differs from it by 0 or
/// by 65536, a mode by its remainder modulo 4; a bit type decodes no word.
pub proof fn law_decoded_number(word: u16)
    ensures
        RegisterValueType::U16.decoded_word(word) matches Ok(RegisterValue::U16(v)) && v == word,
        RegisterValueType::Percent.decoded_word(word) matches Ok(RegisterValue::Percent(v)) && v
            == word,
        RegisterValueType::I16.decoded_word(word) matches Ok(RegisterValue::I16(v)) && (v == word
            || v == word - 0x1_0000),
        RegisterValueType::TemperatureX10.decoded_word(word) matches Ok(
            RegisterValue::Temperature(v),
        ) && (v == word || v == word - 0x1_0000),
        RegisterValueType::Mode.decoded_word(word) matches Ok(RegisterValue::Mode(m)) && m.bits()
            == word % 4,
        RegisterValueType::Bool.decoded_word(word) == Err::<RegisterValue, ValueFault>(
            ValueFault::BitTypeNotConvertible,
        ),
{
    law_mode_is_the_word_modulo_four(word, ModeSelection::in_word(word));
}

/// A bit decodes to itself for the bit type, and for no other.
pub proof fn law_decoded_bit(value_type: RegisterValueType, bit: bool)
    ensures
        match value_type {
            RegisterValueType::Bool => value_type.decoded_bit(bit) matches Ok(
                RegisterValue::Bool(b),
            ) && b == bit,
            _ => value_type.decoded_bit(bit) == Err::<RegisterValue, ValueFault>(
                ValueFault::WordTypeNotConvertible,
            ),
        },
{
}

/// A typed text is taken as a word exactly if it is an integer that the word
/// stands for: the integer itself for an unsigned type (and at most 100 for a
/// percentage), the integer modulo 65536 for the signed one. An unsigned type
/// takes no minus sign.
pub proof fn law_typed_integer_is_its_word(raw: Seq<char>, word: u16)
    ensures
        ({
            let s = text::trimmed(raw);
            let gives = |value_type: RegisterValueType|
                value_type.parsed_word(raw) == Ok::<u16, ValueFault>(word);
            &&& gives(RegisterValueType::U16) <==> number::numeral(s) == Some(word as int) && s[0]
                != '-'
            &&& gives(RegisterValueType::Percent) <==> number::numeral(s) == Some(word as int)
                && s[0] != '-' && word <= 100
            &&& gives(RegisterValueType::I16) <==> (number::numeral(s) matches Some(v) && -0x8000
                <= v <= 0x7FFF && (v == word || v == word - 0x1_0000))
        }),
{
    let s = text::trimmed(raw);
    number::law_integer_is_a_numeral_in_range(s, 0, 0xFFFF);
    number::law_integer_is_a_numeral_in_range(s, -0x8000, 0x7FFF);
}

/// A typed mode is put on the wire as its number.
pub proof fn law_typed_mode_is_its_number(raw: Seq<char>, mode: ModeSelection)
    requires
        ModeSelection::parsed(raw) == Ok::<ModeSelection, ValueFault>(mode),
    ensures
        RegisterValueType::Mode.parsed_word(raw) matches Ok(word) && word < 4 && (mode
            == ModeSelection::Ventilation <==> word == 0) && (mode == ModeSelection::Heating
            <==> word == 1) && (mode == ModeSelection::Cooling <==> word == 2) && (mode
            == ModeSelection::Auto <==> word == 3),
{
}

/// Values are displayed by what they hold: integers in decimal, bits as `on`
/// and `off`, modes by their label, temperatures by a text that reads as the
/// tenths they hold.
pub proof fn law_displayed_text(value: RegisterValue)
    ensures
        match value {
            RegisterValue::U16(v) | RegisterValue::Percent(v) => number::numeral(value.text())
                == Some(v as int),
            RegisterValue::I16(v) => number::numeral(value.text()) == Some(v as int),
            RegisterValue::Bool(b) => value.text() == if b {
                "on"@
            } else {
                "off"@
            },
            RegisterValue::Temperature(t) => RegisterValueType::TemperatureX10.parsed_word(
                value.text(),
            ) matches Ok(word) && (word == t || word == t + 0x1_0000),
            RegisterValue::Mode(m) => value.text() == match m {
                ModeSelection::Ventilation => "ventilation"@,
                ModeSelection::Heating => "heating"@,
                ModeSelection::Cooling => "cooling"@,
                ModeSelection::Auto => "auto"@,
            },
        },
{
    match value {
        RegisterValue::U16(v) | RegisterValue::Percent(v) => {
            number::law_printed_integer_is_a_numeral(v as int);
        },
        RegisterValue::I16(v) => {
            number::law_printed_integer_is_a_numeral(v as int);
        },
        RegisterValue::Temperature(t) => {
            law_displayed_word_parses(RegisterValueType::TemperatureX10, unsigned(t as int));
        },
        _ => {},
    }
}

/// A definition is consistent exactly if only holding registers and coils are
/// writable and exactly coils and discrete inputs hold bits; of the two rules
/// the first is told first, with the name and the kind of the register.
pub proof fn law_validation_rules(def: RegisterDef)
    ensures
        ({
            let read_only = def.kind == RegisterKind::Input || def.kind == RegisterKind::Discrete;
            let bits = def.kind == RegisterKind::Coil || def.kind == RegisterKind::Discrete;
            let mixed = (def.value_type == RegisterValueType::Bool) != bits;
            &&& def.fault() is None <==> !(def.writable && read_only) && !mixed
            &&& def.writable && read_only ==> def.fault() == Some(
                DefinitionFault::WritableOnReadOnlyKind { name: def.name@, kind: def.kind },
            )
            &&& !(def.writable && read_only) && mixed ==> def.fault() == Some(
                DefinitionFault::ValueTypeKindMismatch {
                    name: def.name@,
                    kind: def.kind,
                    value_type: def.value_type,
                },
            )
            &&& def.kind.writable_kind() == !read_only
            &&& def.kind.bit_kind() == bits
        }),
{
}

/// An entry that no earlier one shares its name with is the one that is found
/// under that name, and the last one of a name is found from the end.
pub proof fn law_entry_is_found_by_its_name(entries: Seq<SnapshotEntry>, i: int)
    requires
        0 <= i < entries.len(),
    ensures
        (forall|j: int| 0 <= j < i ==> (#[trigger] entries[j]).name@ != entries[i].name@)
            ==> first_named(entries, entries[i].name@) == Some(entries[i]),
        (forall|j: int|
            i < j < entries.len() ==> (#[trigger] entries[j]).name@ != entries[i].name@)
            ==> last_named(entries, entries[i].name@) == Some(entries[i]),
    decreases entries.len(),
{
    let name = entries[i].name@;
    if forall|j: int| 0 <= j < i ==> (#[trigger] entries[j]).name@ != name {
        law_search_finds_the_first(entries, name);
        match first_named(entries, name) {
            Some(e) => {
                let k = choose|k: int|
                    0 <= k < entries.len() && entries[k] == e && e.name@ == name && (forall|j: int|
                        0 <= j < k ==> (#[trigger] entries[j]).name@ != name);
                assert(entries[k].name@ == name);
                if i < k {
                    assert(entries[i].name@ != name);
                }
            },
            None => {
                assert(entries[i].name@ != name);
            },
        }
    }
    if forall|j: int| i < j < entries.len() ==> (#[trigger] entries[j]).name@ != name {
        if i < entries.len() - 1 {
            let rest = entries.drop_last();
            assert(entries[entries.len() - 1].name@ != name);
            assert(rest[i] == entries[i]);
            assert forall|j: int| i < j < rest.len() implies (#[trigger] rest[j]).name@ != name by {
                assert(entries[j].name@ != name);
            }
            law_entry_is_found_by_its_name(rest, i);
        }
    }
}


/// An error tells in its words what it is about: what did not parse, or which
/// value is out of range and why; which register, which kind and which type.
pub proof fn law_value_faults_in_words(
    detail: Seq<char>,
    value: Seq<char>,
    reason: Seq<char>,
    name: Seq<char>,
    kind: RegisterKind,
    value_type: RegisterValueType,
)
    ensures
        ValueFault::Parse(detail).text() == "could not parse value: "@ + detail,
        (ValueFault::OutOfRange { value, reason }).text() == "value `"@ + value
            + "` out of range: "@ + reason,
        (DefinitionFault::WritableOnReadOnlyKind { name, kind }).text() == "register `"@ + name
            + "`: kind `"@ + kind.name() + "` is read-only and cannot be `writable: true`"@,
        (DefinitionFault::ValueTypeKindMismatch { name, kind, value_type }).text() == "register `"@
            + name + "`: value type `"@ + value_type.name() + "` is incompatible with kind `"@
            + kind.name() + "`"@,
{
}

/// What an entry and an error stand for is all that they hold.
pub proof fn law_entries_and_errors_as_they_are(entry: SnapshotEntry, error: ValueConversionError)
    ensures
        entry@.name == entry.name@,
        entry@.value == entry.value,
        entry.unit is None <==> entry@.unit is None,
        entry.unit is Some ==> entry@.unit == Some(entry.unit->0@),
        match error {
            ValueConversionError::Parse(detail) => error@ == ValueFault::Parse(detail@),
            ValueConversionError::OutOfRange { value, reason } => error@ == (
            ValueFault::OutOfRange { value: value@, reason: reason@ }),
            ValueConversionError::BitTypeNotConvertible => error@
                == ValueFault::BitTypeNotConvertible,
            ValueConversionError::WordTypeNotConvertible => error@
                == ValueFault::WordTypeNotConvertible,
        },
{
}

/// What does not parse as a mode or as a bit is told with what was typed.
pub proof fn law_unknown_words_are_told(raw: Seq<char>)
    ensures
        ModeSelection::parsed(raw) matches Err(fault) ==> fault == ValueFault::Parse(
            "expected ventilation/heating/cooling/auto, got `"@ + text::lower(text::trimmed(raw))
                + "`"@,
        ),
        RegisterValueType::Bool.parsed_bit(raw) matches Err(fault) ==> fault == ValueFault::Parse(
            "expected true/false/on/off/1/0, got `"@ + text::lower(text::trimmed(raw)) + "`"@,
        ),
        RegisterValueType::Mode.parsed_word(raw) matches Err(fault)
            ==> ModeSelection::parsed(raw) == Err::<ModeSelection, ValueFault>(fault),
        RegisterValueType::Bool.parsed_word(raw) == Err::<u16, ValueFault>(
            ValueFault::BitTypeNotConvertible,
        ),
{
}


/// A typed temperature is put on the wire as the nearest number of tenths: ten
/// times the number that was typed, to within half a tenth and what single
/// precision adds to it, in two's complement. A number that stays within the
/// range of a word is taken, one that lies clearly beyond it is not.
pub proof fn law_typed_temperature_is_rounded(
    raw: Seq<char>,
    negative: bool,
    num: nat,
    den: nat,
    word: u16,
)
    requires
        decimal::number(text::trimmed(raw)) == (decimal::Number::Finite { negative, num, den }),
        den > 0,
    ensures
        ({
            let parsed = RegisterValueType::TemperatureX10.parsed_word(raw);
            &&& parsed == Ok::<u16, ValueFault>(word) ==> exists|t: nat|
                (if negative {
                    word == -t || word == 0x1_0000 - t
                } else {
                    word == t
                }) && 51 * den >= #[trigger] (t * den * 100) - 1000 * num >= -51 * den
            &&& 10 * num <= 32767 * den ==> parsed is Ok
            &&& 10 * num >= 32769 * den ==> (parsed matches Err(fault)
                && fault is OutOfRange)
        }),
{
    let t = decimal::tenths_of(crate::binary32::nearest(num, den));
    if num <= 4000 * den {
        decimal::lemma_tenths_are_close(num, den);
        assert(10 * num <= 32767 * den ==> t <= 32767) by (nonlinear_arith)
            requires
                den > 0,
                100 * t * den <= 1000 * num + 51 * den,
        ;
        assert(10 * num >= 32769 * den ==> t >= 32769) by (nonlinear_arith)
            requires
                den > 0,
                100 * t * den + 51 * den >= 1000 * num,
        ;
        assert(t * den * 100 == 100 * t * den) by (nonlinear_arith);
    } else {
        decimal::lemma_tenths_are_large(num, den);
        assert(10 * num >= 32769 * den && 10 * num > 32767 * den) by (nonlinear_arith)
            requires
                num > 4000 * den,
        ;
    }
}

} // verus!
