//! Operations layer: the actions both the CLI and the TUI invoke.
//!
//! Everything in here works on the [`Bus`] of any [`ModbusClient`] and is
//! UI-agnostic. What an operation does is stated by the events it adds to the
//! log of the bus, which are the exchanges that the client went through; what
//! it decides is stated over the replies in those events, so it holds whatever
//! the device answers. What the in-memory client holds afterwards follows
//! from both.

use crate::domain::{
    self, find_definition, ModeSelection, Reading, RegisterDef, RegisterKind, RegisterValue,
    RegisterValueType, Snapshot, SnapshotEntry, ValueConversionError, ValueFault,
};
use crate::modbus::{
    self, exchanged, Bus, BusEvent, BusFault, BusReply, BusRequest, FakeModbusClient, Memory,
    ModbusClient, ModbusError,
};
use crate::text::{self, same, trim_start};
use vstd::prelude::*;

verus! {

// ---------------------------------------------------------------------
// Errors
// ---------------------------------------------------------------------

/// What an [`AppError`] stands for.
pub enum AppFault {
    /// No register with that name exists in the loaded config.
    UnknownRegister { name: Seq<char> },
    /// The register is declared `writable: false`.
    NotWritable { name: Seq<char> },
    /// The value is one the unit must never be set to.
    Refused { name: Seq<char>, reason: Seq<char> },
    /// The wire value does not decode into the declared value type.
    Decode { name: Seq<char>, source: ValueFault },
    /// The typed value string does not parse.
    Parse { name: Seq<char>, source: ValueFault },
    /// Modbus transport / protocol error.
    Modbus(BusFault),
}

impl AppFault {
    /// The fault in words.
    pub open spec fn text(self) -> Seq<char> {
        match self {
            AppFault::UnknownRegister { name } => "unknown register `"@ + name + "`"@,
            AppFault::NotWritable { name } => "register `"@ + name + "` is not writable"@,
            AppFault::Refused { name, reason } => "register `"@ + name + "`: write refused: "@
                + reason,
            AppFault::Decode { name, source } => "register `"@ + name
                + "`: value decode failed: "@ + source.text(),
            AppFault::Parse { name, source } => "register `"@ + name
                + "`: could not parse value: "@ + source.text(),
            AppFault::Modbus(fault) => "modbus error: "@ + fault.text(),
        }
    }
}

/// Errors raised by [`poll_once`], [`read_one`], and [`set_value`].
#[derive(Debug, PartialEq, Eq)]
pub enum AppError {
    /// No register with that name exists in the loaded config.
    UnknownRegister {
        /// The name the user passed.
        name: String,
    },
    /// The user asked to write to a register declared `writable: false`.
    NotWritable {
        /// The register name.
        name: String,
    },
    /// The value is one the unit must never be set to.
    Refused {
        /// The register name.
        name: String,
        /// Why the value is refused.
        reason: &'static str,
    },
    /// Could not decode the wire value into the register's declared value
    /// type.
    Decode {
        /// Register name.
        name: String,
        /// Underlying conversion error.
        source: ValueConversionError,
    },
    /// Could not parse the user-supplied value string.
    Parse {
        /// Register name.
        name: String,
        /// Underlying conversion error.
        source: ValueConversionError,
    },
    /// Bubbled-up Modbus transport / protocol error.
    Modbus(ModbusError),
}

impl View for AppError {
    type V = AppFault;

    open spec fn view(&self) -> AppFault {
        match *self {
            AppError::UnknownRegister { name } => AppFault::UnknownRegister { name: name@ },
            AppError::NotWritable { name } => AppFault::NotWritable { name: name@ },
            AppError::Refused { name, reason } => AppFault::Refused {
                name: name@,
                reason: reason@,
            },
            AppError::Decode { name, source } => AppFault::Decode { name: name@, source: source@ },
            AppError::Parse { name, source } => AppFault::Parse { name: name@, source: source@ },
            AppError::Modbus(error) => AppFault::Modbus(error@),
        }
    }
}

impl AppError {
    /// The error in words.
    pub fn to_string(&self) -> (r: String)
        ensures
            r@ == self@.text(),
    {
        match self {
            AppError::UnknownRegister { name } => {
                let mut out = "unknown register `".to_owned();
                out.append(name.as_str());
                out.append("`");
                out
            },
            AppError::NotWritable { name } => {
                let mut out = "register `".to_owned();
                out.append(name.as_str());
                out.append("` is not writable");
                out
            },
            AppError::Refused { name, reason } => {
                let mut out = "register `".to_owned();
                out.append(name.as_str());
                out.append("`: write refused: ");
                out.append(*reason);
                out
            },
            AppError::Decode { name, source } => {
                let mut out = "register `".to_owned();
                out.append(name.as_str());
                out.append("`: value decode failed: ");
                out.append(source.to_string().as_str());
                out
            },
            AppError::Parse { name, source } => {
                let mut out = "register `".to_owned();
                out.append(name.as_str());
                out.append("`: could not parse value: ");
                out.append(source.to_string().as_str());
                out
            },
            AppError::Modbus(error) => {
                let mut out = "modbus error: ".to_owned();
                out.append(error.to_string().as_str());
                out
            },
        }
    }
}

// ---------------------------------------------------------------------
// Reading
// ---------------------------------------------------------------------

/// The events that `after` adds to `before`.
pub open spec fn added(before: Seq<BusEvent>, after: Seq<BusEvent>) -> Seq<BusEvent> {
    after.skip(before.len() as int)
}

/// `after` is `before` with events added.
pub open spec fn extends(before: Seq<BusEvent>, after: Seq<BusEvent>) -> bool {
    before.len() <= after.len() && after.take(before.len() as int) == before
}

/// The request that reads the register `def`.
pub open spec fn read_request(def: RegisterDef) -> BusRequest {
    match def.kind {
        RegisterKind::Holding => BusRequest::ReadHolding { address: def.address, count: 1 },
        RegisterKind::Input => BusRequest::ReadInput { address: def.address, count: 1 },
        RegisterKind::Coil => BusRequest::ReadCoils { address: def.address, count: 1 },
        RegisterKind::Discrete => BusRequest::ReadDiscrete { address: def.address, count: 1 },
    }
}

/// The failed decoding of a register.
pub open spec fn decode_fault(def: RegisterDef, source: ValueFault) -> AppFault {
    AppFault::Decode { name: def.name@, source }
}

/// The value of the register `def` in the first of `words`.
pub open spec fn value_in_words(def: RegisterDef, words: Seq<u16>) -> Result<
    RegisterValue,
    AppFault,
> {
    if words.len() == 0 {
        Err(decode_fault(def, ValueFault::Parse("empty read response"@)))
    } else {
        match def.value_type.decoded_word(words[0]) {
            Ok(value) => Ok(value),
            Err(source) => Err(decode_fault(def, source)),
        }
    }
}

/// The value of the register `def` in the first of `bits`.
pub open spec fn value_in_bits(def: RegisterDef, bits: Seq<bool>) -> Result<
    RegisterValue,
    AppFault,
> {
    if bits.len() == 0 {
        Err(decode_fault(def, ValueFault::Parse("empty read response"@)))
    } else {
        match def.value_type.decoded_bit(bits[0]) {
            Ok(value) => Ok(value),
            Err(source) => Err(decode_fault(def, source)),
        }
    }
}

/// The value of the register `def` in `reply`.
pub open spec fn value_in(def: RegisterDef, reply: BusReply) -> Result<RegisterValue, AppFault> {
    match reply {
        BusReply::Words(words) => value_in_words(def, words),
        BusReply::Bits(bits) => value_in_bits(def, bits),
        BusReply::Done => value_in_words(def, Seq::empty()),
        BusReply::Failed(fault) => Err(AppFault::Modbus(fault)),
    }
}

/// The snapshot entry of the register `def` in `reply`: the unit is stripped
/// of leading white space.
pub open spec fn entry_in(def: RegisterDef, reply: BusReply) -> Result<Reading, AppFault> {
    match value_in(def, reply) {
        Ok(value) => Ok(
            Reading {
                name: def.name@,
                value,
                unit: match def.unit {
                    Some(unit) => Some(text::skip_space(unit@)),
                    None => None,
                },
            },
        ),
        Err(fault) => Err(fault),
    }
}

/// `after` adds to `before` the one request that reads `def`.
pub open spec fn one_read(def: RegisterDef, before: Seq<BusEvent>, after: Seq<BusEvent>) -> bool {
    &&& after.len() == before.len() + 1
    &&& after.drop_last() == before
    &&& after.last().request == read_request(def)
}

/// Decode the first word of a reply as the value of the register `def`.
///
/// # Errors
/// Returns [`AppError::Decode`] for an empty reply or a bit-valued type.
pub fn decode_word(def: &RegisterDef, words: &[u16]) -> (r: Result<RegisterValue, AppError>)
    ensures
        text::outcome(r) == value_in_words(*def, words@),
{
    if words.len() == 0 {
        return Err(
            AppError::Decode {
                name: def.name.clone(),
                source: ValueConversionError::Parse("empty read response".to_owned()),
            },
        );
    }
    match def.value_type.decode_word(words[0]) {
        Ok(value) => Ok(value),
        Err(source) => Err(AppError::Decode { name: def.name.clone(), source }),
    }
}

/// Decode the first bit of a reply as the value of the register `def`.
///
/// # Errors
/// Returns [`AppError::Decode`] for an empty reply or a word-valued type.
pub fn decode_bit(def: &RegisterDef, bits: &[bool]) -> (r: Result<RegisterValue, AppError>)
    ensures
        text::outcome(r) == value_in_bits(*def, bits@),
{
    if bits.len() == 0 {
        return Err(
            AppError::Decode {
                name: def.name.clone(),
                source: ValueConversionError::Parse("empty read response".to_owned()),
            },
        );
    }
    match def.value_type.decode_bit(bits[0]) {
        Ok(value) => Ok(value),
        Err(source) => Err(AppError::Decode { name: def.name.clone(), source }),
    }
}

fn read_single<C: ModbusClient>(client: &mut Bus<C>, def: &RegisterDef) -> (r: Result<
    RegisterValue,
    AppError,
>)
    ensures
        one_read(*def, old(client).log(), final(client).log()),
        C::answers(
            old(client).inner(),
            read_request(*def),
            final(client).log().last().reply,
            final(client).inner(),
        ),
        text::outcome(r) == value_in(*def, final(client).log().last().reply),
{
    let ghost before = client.log();
    let r = match def.kind {
        RegisterKind::Holding => match client.read_holding(def.address, 1) {
            Ok(words) => decode_word(def, words.as_slice()),
            Err(error) => Err(AppError::Modbus(error)),
        },
        RegisterKind::Input => match client.read_input(def.address, 1) {
            Ok(words) => decode_word(def, words.as_slice()),
            Err(error) => Err(AppError::Modbus(error)),
        },
        RegisterKind::Coil => match client.read_coils(def.address, 1) {
            Ok(bits) => decode_bit(def, bits.as_slice()),
            Err(error) => Err(AppError::Modbus(error)),
        },
        RegisterKind::Discrete => match client.read_discrete(def.address, 1) {
            Ok(bits) => decode_bit(def, bits.as_slice()),
            Err(error) => Err(AppError::Modbus(error)),
        },
    };
    assert(client.log().drop_last() =~= before);
    r
}

fn read_entry<C: ModbusClient>(client: &mut Bus<C>, def: &RegisterDef) -> (r: Result<
    SnapshotEntry,
    AppError,
>)
    ensures
        one_read(*def, old(client).log(), final(client).log()),
        C::answers(
            old(client).inner(),
            read_request(*def),
            final(client).log().last().reply,
            final(client).inner(),
        ),
        text::viewed(r) == entry_in(*def, final(client).log().last().reply),
{
    match read_single(client, def) {
        Ok(value) => {
            let unit = match &def.unit {
                Some(unit) => Some(trim_start(unit.as_str()).to_owned()),
                None => None,
            };
            Ok(SnapshotEntry { name: def.name.clone(), value, unit })
        },
        Err(error) => Err(error),
    }
}

/// `events` are the reads of `registers` in order, up to and including the
/// first that fails, and `r` is what they give.
pub open spec fn polls(
    registers: Seq<RegisterDef>,
    events: Seq<BusEvent>,
    r: Result<Seq<SnapshotEntry>, AppFault>,
) -> bool {
    &&& events.len() <= registers.len()
    &&& forall|i: int|
        0 <= i < events.len() ==> (#[trigger] events[i]).request == read_request(registers[i])
    &&& match r {
        Ok(entries) => {
            &&& events.len() == registers.len()
            &&& entries.len() == registers.len()
            &&& forall|i: int|
                0 <= i < entries.len() ==> entry_in(registers[i], events[i].reply) == Ok::<
                    Reading,
                    AppFault,
                >((#[trigger] entries[i])@)
        },
        Err(fault) => {
            &&& events.len() > 0
            &&& forall|i: int|
                0 <= i < events.len() - 1 ==> entry_in(
                    registers[i],
                    (#[trigger] events[i]).reply,
                ) is Ok
            &&& entry_in(registers[events.len() - 1], events.last().reply) == Err::<
                Reading,
                AppFault,
            >(fault)
        },
    }
}

/// What a poll returned, with its snapshot taken as the entries.
pub open spec fn polled(r: Result<Snapshot, AppError>) -> Result<Seq<SnapshotEntry>, AppFault> {
    match r {
        Ok(snapshot) => Ok(snapshot.entries@),
        Err(error) => Err(error@),
    }
}

/// Read every register defined in `registers` once.
///
/// Reads happen sequentially; GTC's Ethernet module has been observed to drop
/// sessions under aggressive parallel reads. Returns an ordered [`Snapshot`]
/// whose entries follow the order of `registers`.
///
/// # Errors
/// Returns the first [`AppError`] encountered; subsequent registers are not
/// read.
pub fn poll_once<C: ModbusClient>(client: &mut Bus<C>, registers: &[RegisterDef]) -> (r: Result<
    Snapshot,
    AppError,
>)
    ensures
        extends(old(client).log(), final(client).log()),
        exchanged(
            old(client).inner(),
            added(old(client).log(), final(client).log()),
            final(client).inner(),
        ),
        polls(registers@, added(old(client).log(), final(client).log()), polled(r)),
{
    let ghost before = client.log();
    let ghost pre = client.inner();
    let mut snapshot = Snapshot::new();
    let mut i: usize = 0;
    assert(added(before, before) =~= Seq::empty());
    assert(before.take(before.len() as int) =~= before);
    while i < registers.len()
        invariant
            i <= registers@.len(),
            before == old(client).log(),
            pre == old(client).inner(),
            extends(before, client.log()),
            exchanged(pre, added(before, client.log()), client.inner()),
            client.log().len() == before.len() + i,
            snapshot.entries@.len() == i,
            forall|j: int|
                0 <= j < i ==> (#[trigger] added(before, client.log())[j]).request == read_request(
                    registers@[j],
                ),
            forall|j: int|
                0 <= j < i ==> entry_in(
                    registers@[j],
                    added(before, client.log())[j].reply,
                ) == Ok::<Reading, AppFault>((#[trigger] snapshot.entries@[j])@),
        decreases registers@.len() - i,
    {
        let ghost logged = client.log();
        let ghost mid = client.inner();
        let read = read_entry(client, &registers[i]);
        proof {
            let now = client.log();
            modbus::lemma_exchanged_more(
                pre,
                added(before, logged),
                mid,
                now.last(),
                client.inner(),
            );
            assert(now.take(before.len() as int) =~= logged.take(before.len() as int)) by {
                assert forall|k: int| 0 <= k < before.len() implies now[k] == logged[k] by {
                    assert(now.drop_last()[k] == now[k]);
                }
            }
            assert forall|j: int| 0 <= j < i implies #[trigger] added(before, now)[j] == added(
                before,
                logged,
            )[j] by {
                assert(now.drop_last()[before.len() + j] == now[before.len() + j]);
            }
            assert(added(before, now)[i as int] == now.last());
            assert(added(before, now) =~= added(before, logged).push(now.last()));
        }
        match read {
            Ok(entry) => {
                snapshot.entries.push(entry);
            },
            Err(error) => {
                proof {
                    let events = added(before, client.log());
                    assert(events.last() == events[i as int]);
                    assert forall|j: int| 0 <= j < events.len() - 1 implies entry_in(
                        registers@[j],
                        (#[trigger] events[j]).reply,
                    ) is Ok by {
                        let entry = snapshot.entries@[j];
                        assert(added(before, logged)[j] == events[j]);
                        assert(entry_in(registers@[j], added(before, logged)[j].reply) == Ok::<
                            Reading,
                            AppFault,
                        >(entry@));
                    }
                }
                return Err(error);
            },
        }
        i = i + 1;
    }
    Ok(snapshot)
}

/// `events` are what reading the register named `name` puts on the bus, and
/// `r` is what it gives.
pub open spec fn reads_one(
    registers: Seq<RegisterDef>,
    name: Seq<char>,
    events: Seq<BusEvent>,
    r: Result<Reading, AppFault>,
) -> bool {
    match domain::definition_named(registers, name) {
        None => events.len() == 0 && r == Err::<Reading, AppFault>(
            AppFault::UnknownRegister { name },
        ),
        Some(def) => {
            &&& events.len() == 1
            &&& events[0].request == read_request(def)
            &&& r == entry_in(def, events[0].reply)
        },
    }
}

/// Read a single register by name, returning its [`SnapshotEntry`].
///
/// `registers` is the user's full configured list; this function looks up the
/// matching entry by `name` (case-sensitive, exact match) and performs
/// exactly one Modbus read.
///
/// # Errors
/// - [`AppError::UnknownRegister`] when `name` is not in `registers`.
/// - [`AppError::Modbus`] on transport / protocol failure.
/// - [`AppError::Decode`] when the wire value does not fit the declared value
///   type.
pub fn read_one<C: ModbusClient>(client: &mut Bus<C>, registers: &[RegisterDef], name: &str) -> (r:
    Result<SnapshotEntry, AppError>)
    ensures
        extends(old(client).log(), final(client).log()),
        exchanged(
            old(client).inner(),
            added(old(client).log(), final(client).log()),
            final(client).inner(),
        ),
        reads_one(
            registers@,
            name@,
            added(old(client).log(), final(client).log()),
            text::viewed(r),
        ),
{
    let ghost before = client.log();
    let ghost pre = client.inner();
    proof {
        assert(added(before, before) =~= Seq::empty());
        assert(before.take(before.len() as int) =~= before);
    }
    match find_definition(registers, name) {
        Some(def) => {
            let r = read_entry(client, def);
            proof {
                assert(client.log() =~= before.push(client.log().last()));
                lemma_pushed(before, client.log());
                modbus::lemma_exchanged_once(pre, client.log().last(), client.inner());
            }
            r
        },
        None => Err(AppError::UnknownRegister { name: name.to_owned() }),
    }
}

// ---------------------------------------------------------------------
// Writing
// ---------------------------------------------------------------------

/// The registers that set a fan: at `0` the heater runs without airflow and
/// burns the heat exchanger out within seconds.
pub open spec fn is_fan(name: Seq<char>) -> bool {
    name == "fan_speed_supply"@ || name == "fan_speed_exhaust"@
}

fn fan_register(name: &str) -> (r: bool)
    ensures
        r == is_fan(name@),
{
    same(name, "fan_speed_supply") || same(name, "fan_speed_exhaust")
}

/// What a write is to put on the bus.
#[derive(Debug, Clone, Copy, PartialEq, Eq, Structural)]
pub enum WritePlan {
    /// Write `word` to the holding register at `address`.
    Word { address: u16, word: u16 },
    /// Write `bit` to the coil at `address`.
    Bit { address: u16, bit: bool },
    /// Put `bits` into the two mode bits of the holding register at
    /// `address`, keeping the other fourteen.
    Mode { address: u16, bits: u16 },
}

/// The refusal of a value that would stop a fan.
pub open spec fn stopped_fan(name: Seq<char>) -> AppFault {
    AppFault::Refused { name, reason: "a fan setpoint of 0 burns out the heat exchanger"@ }
}

/// What writing `raw` to the register `def` is to put on the bus, or why
/// nothing is written.
pub open spec fn plan_for(def: RegisterDef, name: Seq<char>, raw: Seq<char>) -> Result<
    WritePlan,
    AppFault,
> {
    if !def.writable {
        Err(AppFault::NotWritable { name })
    } else {
        match def.kind {
            RegisterKind::Holding => match def.value_type.parsed_word(raw) {
                Err(source) => Err(AppFault::Parse { name, source }),
                Ok(word) => if is_fan(name) && word == 0 {
                    Err(stopped_fan(name))
                } else if def.value_type == RegisterValueType::Mode {
                    Ok(WritePlan::Mode { address: def.address, bits: word })
                } else {
                    Ok(WritePlan::Word { address: def.address, word })
                },
            },
            RegisterKind::Coil => match def.value_type.parsed_bit(raw) {
                Err(source) => Err(AppFault::Parse { name, source }),
                Ok(bit) => if is_fan(name) && !bit {
                    Err(stopped_fan(name))
                } else {
                    Ok(WritePlan::Bit { address: def.address, bit })
                },
            },
            RegisterKind::Input | RegisterKind::Discrete => Err(AppFault::NotWritable { name }),
        }
    }
}

/// What writing `raw` to the register named `name` is to put on the bus, or
/// why nothing is written.
pub open spec fn plan(registers: Seq<RegisterDef>, name: Seq<char>, raw: Seq<char>) -> Result<
    WritePlan,
    AppFault,
> {
    match domain::definition_named(registers, name) {
        None => Err(AppFault::UnknownRegister { name }),
        Some(def) => plan_for(def, name, raw),
    }
}

/// `current` with its two mode bits replaced by `bits`.
pub open spec fn with_mode(current: u16, bits: u16) -> u16 {
    (current & !ModeSelection::BIT_MASK) | (bits & ModeSelection::BIT_MASK)
}

/// The word to write so that the mode bits become `bits`, given the words
/// that were read, or `None` if the register already holds it. An empty read
/// counts as the word 0, whose write is never left out.
pub open spec fn mode_write(words: Seq<u16>, bits: u16) -> Option<u16> {
    if words.len() == 0 {
        Some(with_mode(0, bits))
    } else if with_mode(words[0], bits) == words[0] {
        None
    } else {
        Some(with_mode(words[0], bits))
    }
}

/// What a write returns for the reply to its request.
pub open spec fn acknowledged(reply: BusReply) -> Result<(), AppFault> {
    match reply {
        BusReply::Failed(fault) => Err(AppFault::Modbus(fault)),
        _ => Ok(()),
    }
}

/// `events` are what carrying out `plan` puts on the bus, and `r` is what it
/// gives.
pub open spec fn carries_out(
    plan: WritePlan,
    events: Seq<BusEvent>,
    r: Result<(), AppFault>,
) -> bool {
    match plan {
        WritePlan::Word { address, word } => {
            &&& events.len() == 1
            &&& events[0].request == (BusRequest::WriteHolding { address, value: word })
            &&& r == acknowledged(events[0].reply)
        },
        WritePlan::Bit { address, bit } => {
            &&& events.len() == 1
            &&& events[0].request == (BusRequest::WriteCoil { address, bit })
            &&& r == acknowledged(events[0].reply)
        },
        WritePlan::Mode { address, bits } => {
            &&& events.len() >= 1
            &&& events[0].request == (BusRequest::ReadHolding { address, count: 1 })
            &&& match events[0].reply {
                BusReply::Words(words) => match mode_write(words, bits) {
                    None => events.len() == 1 && r == Ok::<(), AppFault>(()),
                    Some(word) => {
                        &&& events.len() == 2
                        &&& events[1].request == (BusRequest::WriteHolding { address, value: word })
                        &&& r == acknowledged(events[1].reply)
                    },
                },
                BusReply::Failed(fault) => {
                    &&& events.len() == 1
                    &&& r == Err::<(), AppFault>(AppFault::Modbus(fault))
                },
                _ => false,
            }
        },
    }
}

/// `events` are what writing `raw` to the register named `name` puts on the
/// bus, and `r` is what it gives.
pub open spec fn sets(
    registers: Seq<RegisterDef>,
    name: Seq<char>,
    raw: Seq<char>,
    events: Seq<BusEvent>,
    r: Result<(), AppFault>,
) -> bool {
    match plan(registers, name, raw) {
        Err(fault) => events.len() == 0 && r == Err::<(), AppFault>(fault),
        Ok(plan) => carries_out(plan, events, r),
    }
}

/// Decide what writing `raw_value` to the register named `name` is to put on
/// the bus.
///
/// # Errors
/// Returns [`AppError::UnknownRegister`], [`AppError::NotWritable`],
/// [`AppError::Parse`], or [`AppError::Refused`].
pub fn plan_write(registers: &[RegisterDef], name: &str, raw_value: &str) -> (r: Result<
    WritePlan,
    AppError,
>)
    ensures
        text::outcome(r) == plan(registers@, name@, raw_value@),
{
    let def = match find_definition(registers, name) {
        Some(def) => def,
        None => {
            return Err(AppError::UnknownRegister { name: name.to_owned() });
        },
    };
    if !def.writable {
        return Err(AppError::NotWritable { name: name.to_owned() });
    }
    match def.kind {
        RegisterKind::Holding => {
            let word = match def.value_type.parse_word(raw_value) {
                Ok(word) => word,
                Err(source) => {
                    return Err(AppError::Parse { name: name.to_owned(), source });
                },
            };
            if fan_register(name) && word == 0 {
                return Err(refuse_stopped_fan(name));
            }
            if matches!(def.value_type, RegisterValueType::Mode) {
                Ok(WritePlan::Mode { address: def.address, bits: word })
            } else {
                Ok(WritePlan::Word { address: def.address, word })
            }
        },
        RegisterKind::Coil => {
            let bit = match def.value_type.parse_bit(raw_value) {
                Ok(bit) => bit,
                Err(source) => {
                    return Err(AppError::Parse { name: name.to_owned(), source });
                },
            };
            if fan_register(name) && !bit {
                return Err(refuse_stopped_fan(name));
            }
            Ok(WritePlan::Bit { address: def.address, bit })
        },
        RegisterKind::Input | RegisterKind::Discrete => Err(
            AppError::NotWritable { name: name.to_owned() },
        ),
    }
}

fn refuse_stopped_fan(name: &str) -> (r: AppError)
    ensures
        r@ == stopped_fan(name@),
{
    AppError::Refused {
        name: name.to_owned(),
        reason: "a fan setpoint of 0 burns out the heat exchanger",
    }
}

/// The word to write so that the mode bits become `bits`, given the words
/// that were read, or `None` if the register already holds it.
pub fn merge_mode(words: &[u16], bits: u16) -> (r: Option<u16>)
    ensures
        r == mode_write(words@, bits),
{
    let current: u16 = if words.len() == 0 {
        0
    } else {
        words[0]
    };
    let merged: u16 = (current & !ModeSelection::BIT_MASK) | (bits & ModeSelection::BIT_MASK);
    if words.len() > 0 && merged == current {
        None
    } else {
        Some(merged)
    }
}

/// Write `raw_value` to the register named `name`.
///
/// The string is parsed according to the register's
/// [`crate::domain::RegisterValueType`]. When the value type is
/// [`crate::domain::RegisterValueType::Mode`] the bus operation is a
/// read-modify-write: the surrounding bits of the packed configuration word
/// are preserved, and nothing is written when the word already holds the
/// mode, which spares the EEPROM behind it.
///
/// # Errors
/// Returns [`AppError::UnknownRegister`], [`AppError::NotWritable`],
/// [`AppError::Parse`], [`AppError::Refused`] for a fan setpoint of `0`, or
/// [`AppError::Modbus`].
pub fn set_value<C: ModbusClient>(
    client: &mut Bus<C>,
    registers: &[RegisterDef],
    name: &str,
    raw_value: &str,
) -> (r: Result<(), AppError>)
    ensures
        extends(old(client).log(), final(client).log()),
        exchanged(
            old(client).inner(),
            added(old(client).log(), final(client).log()),
            final(client).inner(),
        ),
        sets(
            registers@,
            name@,
            raw_value@,
            added(old(client).log(), final(client).log()),
            text::outcome(r),
        ),
{
    let ghost before = client.log();
    let ghost pre = client.inner();
    proof {
        assert(added(before, before) =~= Seq::empty());
        assert(before.take(before.len() as int) =~= before);
    }
    let plan = match plan_write(registers, name, raw_value) {
        Ok(plan) => plan,
        Err(error) => {
            return Err(error);
        },
    };
    match plan {
        WritePlan::Word { address, word } => {
            let written = client.write_holding(address, word);
            proof {
                lemma_pushed(before, client.log());
                modbus::lemma_exchanged_once(pre, client.log().last(), client.inner());
            }
            acknowledge(written)
        },
        WritePlan::Bit { address, bit } => {
            let written = client.write_coil(address, bit);
            proof {
                lemma_pushed(before, client.log());
                modbus::lemma_exchanged_once(pre, client.log().last(), client.inner());
            }
            acknowledge(written)
        },
        WritePlan::Mode { address, bits } => {
            let words = match client.read_holding(address, 1) {
                Ok(words) => words,
                Err(error) => {
                    proof {
                        lemma_pushed(before, client.log());
                        modbus::lemma_exchanged_once(pre, client.log().last(), client.inner());
                    }
                    return Err(AppError::Modbus(error));
                },
            };
            let ghost logged = client.log();
            let ghost mid = client.inner();
            proof {
                lemma_pushed(before, logged);
                modbus::lemma_exchanged_once(pre, logged.last(), mid);
            }
            match merge_mode(words.as_slice(), bits) {
                None => Ok(()),
                Some(word) => {
                    let written = client.write_holding(address, word);
                    proof {
                        let now = client.log();
                        let events = added(before, now);
                        assert(now.take(before.len() as int) =~= before);
                        assert(events.len() == 2);
                        assert(events[0] == logged.last());
                        assert(events[1] == now.last());
                        modbus::lemma_exchanged_more(
                            pre,
                            added(before, logged),
                            mid,
                            now.last(),
                            client.inner(),
                        );
                        assert(events =~= added(before, logged).push(now.last()));
                    }
                    acknowledge(written)
                },
            }
        },
    }
}

proof fn lemma_pushed(before: Seq<BusEvent>, after: Seq<BusEvent>)
    requires
        after.len() > 0,
        after == before.push(after.last()),
    ensures
        extends(before, after),
        added(before, after) == seq![after.last()],
{
    assert(after.take(before.len() as int) =~= before);
    assert(added(before, after) =~= seq![after.last()]);
}

fn acknowledge(r: Result<(), ModbusError>) -> (out: Result<(), AppError>)
    ensures
        text::outcome(out) == acknowledged(modbus::write_reply(r)),
{
    match r {
        Ok(()) => Ok(()),
        Err(error) => Err(AppError::Modbus(error)),
    }
}

// ---------------------------------------------------------------------
// Laws
// ---------------------------------------------------------------------

/// A poll only reads: none of its requests changes the device.
pub proof fn law_poll_never_writes(
    registers: Seq<RegisterDef>,
    events: Seq<BusEvent>,
    r: Result<Seq<SnapshotEntry>, AppFault>,
)
    requires
        polls(registers, events, r),
    ensures
        forall|i: int| 0 <= i < events.len() ==> !(#[trigger] events[i]).request.is_write(),
{
    assert forall|i: int| 0 <= i < events.len() implies !(
    #[trigger] events[i]).request.is_write() by {
        assert(events[i].request == read_request(registers[i]));
    }
}

/// A poll that succeeds gives one entry per register, in the order of the
/// registers.
pub proof fn law_snapshot_follows_registers(
    registers: Seq<RegisterDef>,
    events: Seq<BusEvent>,
    entries: Seq<SnapshotEntry>,
)
    requires
        polls(registers, events, Ok(entries)),
    ensures
        entries.len() == registers.len(),
        forall|i: int|
            0 <= i < entries.len() ==> (#[trigger] entries[i]).name@ == registers[i].name@,
{
    assert forall|i: int| 0 <= i < entries.len() implies (#[trigger] entries[i]).name@
        == registers[i].name@ by {
        assert(entry_in(registers[i], events[i].reply) == Ok::<Reading, AppFault>(entries[i]@));
    }
}

/// A register with a valid definition decodes every reply of its kind that
/// holds something.
pub proof fn law_valid_register_decodes(def: RegisterDef, words: Seq<u16>, bits: Seq<bool>)
    requires
        def.valid(),
        words.len() > 0,
        bits.len() > 0,
    ensures
        if def.kind.bit_kind() {
            value_in(def, BusReply::Bits(bits)) == Ok::<RegisterValue, AppFault>(
                RegisterValue::Bool(bits[0]),
            )
        } else {
            value_in(def, BusReply::Words(words)) is Ok
        },
{
}

/// A write that is turned down before the bus leaves the bus alone.
pub proof fn law_refused_write_sends_nothing(
    registers: Seq<RegisterDef>,
    name: Seq<char>,
    raw: Seq<char>,
    events: Seq<BusEvent>,
    r: Result<(), AppFault>,
)
    requires
        sets(registers, name, raw, events, r),
        r matches Err(fault) && !(fault is Modbus),
    ensures
        events.len() == 0,
        plan(registers, name, raw) == Err::<WritePlan, AppFault>(r->Err_0),
{
}

/// The words that a mode write leaves on the device keep their other fourteen
/// bits and hold the mode.
pub proof fn law_mode_write_keeps_the_flags(current: u16, mode: ModeSelection)
    ensures
        with_mode(current, mode.bits()) & !ModeSelection::BIT_MASK == current
            & !ModeSelection::BIT_MASK,
        ModeSelection::in_word(with_mode(current, mode.bits())) == mode,
{
    let bits = mode.bits();
    assert(((current & !3u16) | (bits & 3)) & !3u16 == current & !3u16) by (bit_vector);
    assert(((current & !3u16) | (bits & 3)) & 3 == bits & 3) by (bit_vector);
    domain::law_mode_bits_round_trip(mode);
    assert(bits <= 3 ==> bits & 3 == bits) by (bit_vector);
}

/// Setting the mode that the register already holds writes nothing.
pub proof fn law_mode_write_is_deduplicated(words: Seq<u16>, mode: ModeSelection)
    requires
        words.len() > 0,
    ensures
        mode_write(words, mode.bits()) is None <==> ModeSelection::in_word(words[0]) == mode,
{
    let current = words[0];
    let bits = mode.bits();
    law_mode_write_keeps_the_flags(current, mode);
    assert(current & 3 == bits && bits <= 3 ==> ((current & !3u16) | (bits & 3)) == current)
        by (bit_vector);
    assert(current & 3 <= 3) by (bit_vector);
}

/// No write ever puts the value 0 on the bus for a fan register.
pub proof fn law_fan_is_never_stopped(
    registers: Seq<RegisterDef>,
    name: Seq<char>,
    raw: Seq<char>,
    events: Seq<BusEvent>,
    r: Result<(), AppFault>,
    i: int,
)
    requires
        is_fan(name),
        sets(registers, name, raw, events, r),
        0 <= i < events.len(),
    ensures
        events[i].request matches BusRequest::WriteHolding { address, value } ==> value != 0,
        events[i].request matches BusRequest::WriteCoil { address, bit } ==> bit,
{
    match plan(registers, name, raw) {
        Ok(WritePlan::Mode { address, bits }) => {
            let def = domain::definition_named(registers, name)->0;
            let mode = ModeSelection::parsed(raw)->Ok_0;
            assert(bits == mode.bits() && bits != 0 && bits <= 3);
            assert(forall|current: u16|
                bits != 0 && bits <= 3 ==> #[trigger] ((current & !3u16) | (bits & 3)) != 0)
                by (bit_vector);
            if i == 1 {
                match events[0].reply {
                    BusReply::Words(words) => {
                        if words.len() == 0 {
                            assert(with_mode(0, bits) == ((0u16 & !3u16) | (bits & 3)));
                        } else {
                            assert(with_mode(words[0], bits) == ((words[0] & !3u16) | (bits & 3)));
                        }
                    },
                    _ => {},
                }
            }
        },
        _ => {},
    }
}

/// A write touches no register but the one it was asked for.
pub proof fn law_write_stays_at_its_address(
    registers: Seq<RegisterDef>,
    name: Seq<char>,
    raw: Seq<char>,
    events: Seq<BusEvent>,
    r: Result<(), AppFault>,
    i: int,
)
    requires
        sets(registers, name, raw, events, r),
        0 <= i < events.len(),
    ensures
        domain::definition_named(registers, name) matches Some(def) && (
        events[i].request matches BusRequest::WriteHolding { address, value } ==> address
            == def.address && def.kind == RegisterKind::Holding && def.writable) && (
        events[i].request matches BusRequest::WriteCoil { address, bit } ==> address == def.address
            && def.kind == RegisterKind::Coil && def.writable),
{
}


/// What was written is read back: a device that keeps the word or bit it was
/// sent answers the read of the same register with a value that, typed in
/// again, is that word or bit.
pub proof fn law_written_value_reads_back(
    def: RegisterDef,
    name: Seq<char>,
    raw: Seq<char>,
    current: u16,
)
    ensures
        match plan_for(def, name, raw) {
            Ok(WritePlan::Word { address, word }) => {
                &&& read_request(def) == (BusRequest::ReadHolding { address, count: 1 })
                &&& value_in(def, BusReply::Words(seq![word])) matches Ok(value)
                    && def.value_type.parsed_word(value.text()) == Ok::<u16, ValueFault>(word)
            },
            Ok(WritePlan::Bit { address, bit }) => {
                &&& read_request(def) == (BusRequest::ReadCoils { address, count: 1 })
                &&& value_in(def, BusReply::Bits(seq![bit])) == Ok::<RegisterValue, AppFault>(
                    RegisterValue::Bool(bit),
                )
            },
            Ok(WritePlan::Mode { address, bits }) => {
                &&& read_request(def) == (BusRequest::ReadHolding { address, count: 1 })
                &&& ModeSelection::parsed(raw) matches Ok(mode) && value_in(
                    def,
                    BusReply::Words(seq![with_mode(current, bits)]),
                ) == Ok::<RegisterValue, AppFault>(RegisterValue::Mode(mode))
            },
            Err(_) => true,
        },
{
    match plan_for(def, name, raw) {
        Ok(WritePlan::Word { address, word }) => {
            if def.value_type == RegisterValueType::Percent {
                crate::number::law_integer_in_range(text::trimmed(raw), 0, 0xFFFF);
            }
            domain::law_displayed_word_parses(def.value_type, word);
        },
        Ok(WritePlan::Mode { address, bits }) => {
            law_mode_write_keeps_the_flags(current, ModeSelection::parsed(raw)->Ok_0);
        },
        _ => {},
    }
}

/// What an in-memory device holds after `plan` was carried out.
pub open spec fn stored(plan: WritePlan, memory: Memory) -> Memory {
    match plan {
        WritePlan::Word { address, word } => Memory {
            holding: memory.holding.insert(address, word),
            ..memory
        },
        WritePlan::Bit { address, bit } => Memory {
            coils: memory.coils.insert(address, bit),
            ..memory
        },
        WritePlan::Mode { address, bits } => {
            let current = modbus::word_at(memory.holding, address as int);
            if with_mode(current, bits) == current {
                memory
            } else {
                Memory {
                    holding: memory.holding.insert(address, with_mode(current, bits)),
                    ..memory
                }
            }
        },
    }
}

/// A write to the fake succeeds unless it is turned down before the bus, and
/// stores what was planned and nothing else.
pub proof fn law_fake_stores_the_write(
    pre: FakeModbusClient,
    registers: Seq<RegisterDef>,
    name: Seq<char>,
    raw: Seq<char>,
    events: Seq<BusEvent>,
    r: Result<(), AppFault>,
    post: FakeModbusClient,
)
    requires
        sets(registers, name, raw, events, r),
        exchanged(pre, events, post),
    ensures
        match plan(registers, name, raw) {
            Err(fault) => r == Err::<(), AppFault>(fault) && post@ == pre@,
            Ok(plan) => r == Ok::<(), AppFault>(()) && post@ == stored(plan, pre@),
        },
{
    modbus::law_fake_follows_the_requests(pre, events, post);
    reveal_with_fuel(Memory::after_all, 3);
    if events.len() > 0 {
        assert(events[0].reply == pre@.after_all(events.take(0)).answer(events[0].request));
        assert(events.take(0) =~= Seq::empty());
        assert(events.len() == 1 ==> events.drop_last() =~= Seq::empty());
    }
    if events.len() == 2 {
        assert(events[1].reply == pre@.after_all(events.take(1)).answer(events[1].request));
        assert(events.drop_last() =~= seq![events[0]]);
        assert(seq![events[0]].drop_last() =~= Seq::empty());
    }
}

/// Setting the mode through the fake succeeds, replaces the two mode bits of
/// the packed word and changes nothing else.
pub proof fn law_fake_keeps_the_flags(
    pre: FakeModbusClient,
    registers: Seq<RegisterDef>,
    name: Seq<char>,
    raw: Seq<char>,
    events: Seq<BusEvent>,
    r: Result<(), AppFault>,
    post: FakeModbusClient,
    def: RegisterDef,
    mode: ModeSelection,
    other: u16,
)
    requires
        sets(registers, name, raw, events, r),
        exchanged(pre, events, post),
        domain::definition_named(registers, name) == Some(def),
        def.writable,
        def.kind == RegisterKind::Holding,
        def.value_type == RegisterValueType::Mode,
        ModeSelection::parsed(raw) == Ok::<ModeSelection, ValueFault>(mode),
        !is_fan(name),
    ensures
        r == Ok::<(), AppFault>(()),
        modbus::word_at(post@.holding, def.address as int) == (modbus::word_at(
            pre@.holding,
            def.address as int,
        ) & 0xFFFC) | mode.bits(),
        other != def.address ==> post@.holding.dom().contains(other)
            == pre@.holding.dom().contains(other) && modbus::word_at(post@.holding, other as int)
            == modbus::word_at(pre@.holding, other as int),
        post@.input == pre@.input,
        post@.coils == pre@.coils,
        post@.discrete == pre@.discrete,
{
    law_fake_stores_the_write(pre, registers, name, raw, events, r, post);
    let current = modbus::word_at(pre@.holding, def.address as int);
    let bits = mode.bits();
    assert(bits <= 3 ==> ((current & !3u16) | (bits & 3)) == (current & 0xFFFC) | bits)
        by (bit_vector);
}

/// The value that the typed text `raw` stands for in the register `def`.
pub open spec fn typed_value(def: RegisterDef, raw: Seq<char>) -> Result<
    RegisterValue,
    ValueFault,
> {
    if def.kind.bit_kind() {
        match def.value_type.parsed_bit(raw) {
            Ok(bit) => def.value_type.decoded_bit(bit),
            Err(fault) => Err(fault),
        }
    } else {
        match def.value_type.parsed_word(raw) {
            Ok(word) => def.value_type.decoded_word(word),
            Err(fault) => Err(fault),
        }
    }
}

/// What is set through the fake is read back from it: after a write that
/// succeeded, reading the register by its name gives the value that was
/// typed, and reading changes nothing. The value, displayed and typed in
/// again, is the same value.
pub proof fn law_fake_gives_back_what_was_set(
    pre: FakeModbusClient,
    registers: Seq<RegisterDef>,
    name: Seq<char>,
    raw: Seq<char>,
    written: Seq<BusEvent>,
    mid: FakeModbusClient,
    read: Seq<BusEvent>,
    r: Result<Reading, AppFault>,
    post: FakeModbusClient,
)
    requires
        sets(registers, name, raw, written, Ok(())),
        exchanged(pre, written, mid),
        reads_one(registers, name, read, r),
        exchanged(mid, read, post),
    ensures
        post@ == mid@,
        domain::definition_named(registers, name) matches Some(def) && r matches Ok(reading)
            && reading.name == name && typed_value(def, raw) == Ok::<RegisterValue, ValueFault>(
            reading.value,
        ) && typed_value(def, reading.value.text()) == Ok::<RegisterValue, ValueFault>(
            reading.value,
        ),
{
    law_fake_stores_the_write(pre, registers, name, raw, written, Ok(()), mid);
    modbus::law_reads_leave_the_fake_alone(mid, read, post);
    domain::law_lookup_finds_the_first(registers, name);
    let def = domain::definition_named(registers, name)->0;
    let current = modbus::word_at(pre@.holding, def.address as int);
    law_written_value_reads_back(def, name, raw, current);
    assert(read[0].reply == mid@.answer(read[0].request));
    match plan_for(def, name, raw) {
        Ok(WritePlan::Word { address, word }) => {
            modbus::law_written_word_reads_back(pre@.holding, address, word, address);
        },
        Ok(WritePlan::Bit { address, bit }) => {
            modbus::law_written_bit_reads_back(pre@.coils, address, bit, address);
            domain::law_displayed_bit_parses(bit);
        },
        Ok(WritePlan::Mode { address, bits }) => {
            let mode = ModeSelection::parsed(raw)->Ok_0;
            domain::law_mode_bits_round_trip(mode);
            domain::law_mode_label_parses(mode);
            assert(mid@.answer(read[0].request)->Words_0 =~= seq![with_mode(current, bits)]);
        },
        Err(_) => {},
    }
}

/// No write through the fake leaves a fan stopped: what was set is not 0, and
/// a write that is turned down leaves the fake as it was.
pub proof fn law_fake_never_stops_a_fan(
    pre: FakeModbusClient,
    registers: Seq<RegisterDef>,
    name: Seq<char>,
    raw: Seq<char>,
    events: Seq<BusEvent>,
    r: Result<(), AppFault>,
    post: FakeModbusClient,
)
    requires
        is_fan(name),
        sets(registers, name, raw, events, r),
        exchanged(pre, events, post),
    ensures
        r is Err ==> post@ == pre@,
        r is Ok ==> (domain::definition_named(registers, name) matches Some(def) && (def.kind
            == RegisterKind::Holding && modbus::word_at(post@.holding, def.address as int) != 0
            || def.kind == RegisterKind::Coil && modbus::bit_at(
            post@.coils,
            def.address as int,
        ))),
{
    law_fake_stores_the_write(pre, registers, name, raw, events, r, post);
    match plan(registers, name, raw) {
        Ok(WritePlan::Mode { address, bits }) => {
            let current = modbus::word_at(pre@.holding, address as int);
            assert(bits == ModeSelection::parsed(raw)->Ok_0.bits() && bits != 0 && bits <= 3);
            assert(bits != 0 && bits <= 3 ==> ((current & !3u16) | (bits & 3)) != 0)
                by (bit_vector);
            assert(modbus::word_at(post@.holding, address as int) == with_mode(current, bits));
        },
        _ => {},
    }
}

/// Reading one register of the fake gives the entry that a poll gave, where
/// names are unique, and neither changes the fake.
pub proof fn law_fake_read_agrees_with_poll(
    pre: FakeModbusClient,
    registers: Seq<RegisterDef>,
    polled: Seq<BusEvent>,
    entries: Seq<SnapshotEntry>,
    mid: FakeModbusClient,
    i: int,
    read: Seq<BusEvent>,
    r: Result<Reading, AppFault>,
    post: FakeModbusClient,
)
    requires
        domain::distinct_names(registers),
        polls(registers, polled, Ok(entries)),
        exchanged(pre, polled, mid),
        0 <= i < registers.len(),
        reads_one(registers, registers[i].name@, read, r),
        exchanged(mid, read, post),
    ensures
        r == Ok::<Reading, AppFault>(entries[i]@),
        mid@ == pre@,
        post@ == pre@,
{
    law_poll_never_writes(registers, polled, Ok(entries));
    modbus::law_reads_leave_the_fake_alone(pre, polled, mid);
    domain::law_unique_name_is_found(registers, i);
    modbus::law_reads_leave_the_fake_alone(mid, read, post);
    assert(polled[i].request == read_request(registers[i]));
    assert(polled[i].reply == pre@.answer(polled[i].request));
    assert(read[0].reply == mid@.answer(read[0].request));
    assert(entry_in(registers[i], polled[i].reply) == Ok::<Reading, AppFault>(entries[i]@));
}

/// A poll of the fake succeeds if every definition is valid.
pub proof fn law_fake_is_polled(
    pre: FakeModbusClient,
    registers: Seq<RegisterDef>,
    events: Seq<BusEvent>,
    r: Result<Seq<SnapshotEntry>, AppFault>,
    post: FakeModbusClient,
)
    requires
        forall|i: int| 0 <= i < registers.len() ==> (#[trigger] registers[i]).valid(),
        polls(registers, events, r),
        exchanged(pre, events, post),
    ensures
        r is Ok,
        post@ == pre@,
        forall|i: int|
            0 <= i < registers.len() ==> entry_in(
                registers[i],
                pre@.answer(read_request(registers[i])),
            ) == Ok::<Reading, AppFault>((#[trigger] r->Ok_0[i])@),
{
    law_poll_never_writes(registers, events, r);
    modbus::law_reads_leave_the_fake_alone(pre, events, post);
    assert forall|i: int| 0 <= i < events.len() implies entry_in(
        registers[i],
        (#[trigger] events[i]).reply,
    ) is Ok && events[i].reply == pre@.answer(read_request(registers[i])) by {
        let def = registers[i];
        assert(def.valid());
        assert(events[i].request == read_request(def));
        assert(events[i].reply == pre@.answer(events[i].request));
    }
    match r {
        Ok(entries) => {
            assert forall|i: int| 0 <= i < registers.len() implies entry_in(
                registers[i],
                pre@.answer(read_request(registers[i])),
            ) == Ok::<Reading, AppFault>((#[trigger] entries[i])@) by {
                assert(entry_in(registers[i], events[i].reply) is Ok);
            }
        },
        Err(_) => {
            assert(entry_in(registers[events.len() - 1], events[events.len() - 1].reply) is Ok);
        },
    }
}


// ---------------------------------------------------------------------
// What the operations are for
// ---------------------------------------------------------------------

/// Reading a register asks for one item at the register's own address, in the
/// register's own address space, whatever its value type.
pub proof fn law_read_asks_for_its_own_space(def: RegisterDef)
    ensures
        match read_request(def) {
            BusRequest::ReadHolding { address, count } => def.kind == RegisterKind::Holding
                && address == def.address && count == 1,
            BusRequest::ReadInput { address, count } => def.kind == RegisterKind::Input && address
                == def.address && count == 1,
            BusRequest::ReadCoils { address, count } => def.kind == RegisterKind::Coil && address
                == def.address && count == 1,
            BusRequest::ReadDiscrete { address, count } => def.kind == RegisterKind::Discrete
                && address == def.address && count == 1,
            _ => false,
        },
{
}

/// The value of a register is its first word or bit, decoded by its type; a
/// request that failed gives the failure, and what does not decode names the
/// register.
pub proof fn law_reply_gives_the_value(
    def: RegisterDef,
    words: Seq<u16>,
    bits: Seq<bool>,
    fault: BusFault,
)
    ensures
        value_in(def, BusReply::Failed(fault)) == Err::<RegisterValue, AppFault>(
            AppFault::Modbus(fault),
        ),
        words.len() > 0 ==> match def.value_type.decoded_word(words[0]) {
            Ok(value) => value_in(def, BusReply::Words(words)) == Ok::<RegisterValue, AppFault>(
                value,
            ),
            Err(source) => value_in(def, BusReply::Words(words)) == Err::<RegisterValue, AppFault>(
                AppFault::Decode { name: def.name@, source },
            ),
        },
        bits.len() > 0 ==> match def.value_type.decoded_bit(bits[0]) {
            Ok(value) => value_in(def, BusReply::Bits(bits)) == Ok::<RegisterValue, AppFault>(
                value,
            ),
            Err(source) => value_in(def, BusReply::Bits(bits)) == Err::<RegisterValue, AppFault>(
                AppFault::Decode { name: def.name@, source },
            ),
        },
        words.len() == 0 ==> value_in(def, BusReply::Words(words)) is Err,
        bits.len() == 0 ==> value_in(def, BusReply::Bits(bits)) is Err,
{
}

/// The value that a fake holds at the address of a register: what is stored in
/// the address space of the register's kind, or 0, decoded by the value type.
pub open spec fn held(client: FakeModbusClient, def: RegisterDef) -> Result<
    RegisterValue,
    ValueFault,
> {
    let a = def.address;
    match def.kind {
        RegisterKind::Holding => def.value_type.decoded_word(
            if client.holding@.contains_key(a) {
                client.holding@[a]
            } else {
                0
            },
        ),
        RegisterKind::Input => def.value_type.decoded_word(
            if client.input@.contains_key(a) {
                client.input@[a]
            } else {
                0
            },
        ),
        RegisterKind::Coil => def.value_type.decoded_bit(
            client.coils@.contains_key(a) && client.coils@[a],
        ),
        RegisterKind::Discrete => def.value_type.decoded_bit(
            client.discrete@.contains_key(a) && client.discrete@[a],
        ),
    }
}

/// The four maps of a fake are as they were.
pub open spec fn same_maps(pre: FakeModbusClient, post: FakeModbusClient) -> bool {
    &&& post.holding@ == pre.holding@
    &&& post.input@ == pre.input@
    &&& post.coils@ == pre.coils@
    &&& post.discrete@ == pre.discrete@
}

/// `unit` is `declared` without the white space in front.
pub open spec fn unit_of(declared: Option<String>, unit: Option<Seq<char>>) -> bool {
    match (declared, unit) {
        (Some(text), Some(shown)) => exists|i: int|
            0 <= i <= text@.len() && shown == #[trigger] text@.skip(i) && (forall|k: int|
                0 <= k < i ==> text::is_space(#[trigger] text@[k])) && (i < text@.len()
                ==> !text::is_space(text@[i])),
        (None, None) => true,
        _ => false,
    }
}

proof fn lemma_fake_read(def: RegisterDef, pre: FakeModbusClient, reply: BusReply)
    requires
        reply == pre@.answer(read_request(def)),
    ensures
        match held(pre, def) {
            Ok(value) => entry_in(def, reply) matches Ok(reading) && reading.value == value
                && reading.name == def.name@ && unit_of(def.unit, reading.unit),
            Err(source) => entry_in(def, reply) == Err::<Reading, AppFault>(
                AppFault::Decode { name: def.name@, source },
            ),
        },
{
    match def.unit {
        Some(unit) => {
            text::law_skipped_white_space(unit@);
        },
        None => {},
    }
}

/// A poll of the fake gives, for every register, what the fake holds at its
/// address in its address space, under its name and with its unit, and leaves
/// the fake as it was. It fails exactly at the first register whose value does
/// not decode.
pub proof fn law_fake_poll_reads_each_register(
    pre: FakeModbusClient,
    registers: Seq<RegisterDef>,
    events: Seq<BusEvent>,
    r: Result<Seq<SnapshotEntry>, AppFault>,
    post: FakeModbusClient,
)
    requires
        polls(registers, events, r),
        exchanged(pre, events, post),
    ensures
        same_maps(pre, post),
        match r {
            Ok(entries) => entries.len() == registers.len() && forall|i: int|
                0 <= i < registers.len() ==> {
                    &&& held(pre, registers[i]) == Ok::<RegisterValue, ValueFault>(
                        (#[trigger] entries[i]).value,
                    )
                    &&& entries[i].name@ == registers[i].name@
                    &&& unit_of(registers[i].unit, text::optional(entries[i].unit))
                },
            Err(fault) => exists|i: int|
                0 <= i < registers.len() && (forall|j: int|
                    0 <= j < i ==> held(pre, #[trigger] registers[j]) is Ok) && held(
                    pre,
                    #[trigger] registers[i],
                ) is Err && fault == (AppFault::Decode {
                    name: registers[i].name@,
                    source: held(pre, registers[i])->Err_0,
                }),
        },
{
    law_poll_never_writes(registers, events, r);
    modbus::law_reads_leave_the_fake_alone(pre, events, post);
    assert forall|i: int| 0 <= i < events.len() implies (#[trigger] events[i]).reply
        == pre@.answer(read_request(registers[i])) by {
        assert(events[i].request == read_request(registers[i]));
        assert(events[i].reply == pre@.answer(events[i].request));
    }
    match r {
        Ok(entries) => {
            assert forall|i: int| 0 <= i < registers.len() implies {
                &&& held(pre, registers[i]) == Ok::<RegisterValue, ValueFault>(
                    (#[trigger] entries[i]).value,
                )
                &&& entries[i].name@ == registers[i].name@
                &&& unit_of(registers[i].unit, text::optional(entries[i].unit))
            } by {
                assert(entry_in(registers[i], events[i].reply) == Ok::<Reading, AppFault>(
                    entries[i]@,
                ));
                lemma_fake_read(registers[i], pre, events[i].reply);
            }
        },
        Err(fault) => {
            let last = events.len() - 1;
            lemma_fake_read(registers[last], pre, events[last].reply);
            assert(entry_in(registers[last], events[last].reply) is Err);
            assert forall|j: int| 0 <= j < last implies held(pre, #[trigger] registers[j]) is Ok by {
                assert(entry_in(registers[j], events[j].reply) is Ok);
                lemma_fake_read(registers[j], pre, events[j].reply);
            }
        },
    }
}

/// Reading one register of the fake gives what the fake holds at its address in
/// its address space, under its name and with its unit, and leaves the fake as
/// it was; a name that no register has is told as unknown.
pub proof fn law_fake_read_gives_what_is_held(
    pre: FakeModbusClient,
    registers: Seq<RegisterDef>,
    name: Seq<char>,
    events: Seq<BusEvent>,
    r: Result<Reading, AppFault>,
    post: FakeModbusClient,
)
    requires
        reads_one(registers, name, events, r),
        exchanged(pre, events, post),
    ensures
        same_maps(pre, post),
        (forall|i: int| 0 <= i < registers.len() ==> (#[trigger] registers[i]).name@ != name)
            ==> events.len() == 0 && r == Err::<Reading, AppFault>(
            AppFault::UnknownRegister { name },
        ),
        forall|i: int|
            0 <= i < registers.len() && (#[trigger] registers[i]).name@ == name && (forall|j: int|
                0 <= j < i ==> (#[trigger] registers[j]).name@ != name) ==> events.len() == 1
                && match held(pre, registers[i]) {
                Ok(value) => r matches Ok(reading) && reading.value == value && reading.name == name
                    && unit_of(registers[i].unit, reading.unit),
                Err(source) => r == Err::<Reading, AppFault>(AppFault::Decode { name, source }),
            },
{
    modbus::law_reads_leave_the_fake_alone(pre, events, post);
    domain::law_lookup_finds_the_first(registers, name);
    match domain::definition_named(registers, name) {
        None => {},
        Some(def) => {
            let k = choose|k: int|
                0 <= k < registers.len() && registers[k] == def && def.name@ == name && (forall|
                    j: int,
                |
                    0 <= j < k ==> (#[trigger] registers[j]).name@ != name);
            assert(registers[k].name@ == name);
            assert(events[0].reply == pre@.answer(events[0].request));
            lemma_fake_read(def, pre, events[0].reply);
            assert forall|i: int|
                0 <= i < registers.len() && (#[trigger] registers[i]).name@ == name && (forall|
                    j: int,
                |
                    0 <= j < i ==> (#[trigger] registers[j]).name@ != name) implies i == k by {
                if k < i {
                    assert(registers[k].name@ != name);
                } else if i < k {
                    assert(registers[i].name@ != name);
                }
            }
        },
    }
}

/// The name is that of a fan setpoint, and at 0 a fan stands still.
pub open spec fn would_stop_a_fan(name: Seq<char>, word: int) -> bool {
    (name == "fan_speed_supply"@ || name == "fan_speed_exhaust"@) && word == 0
}

/// What setting a register does, case by case, whatever the client answers.
/// A name that no register has, a register that cannot be written, a text that
/// does not parse and a value that would stop a fan are refused in this order,
/// and nothing is sent. Otherwise a holding register is sent the typed word
/// and a coil the typed bit, at the register's address, once. A mode is first
/// read from its address; where the word read has another remainder modulo 4,
/// the word with the same quotient and the typed mode as remainder is sent
/// back. The outcome is that of the last request.
pub proof fn law_set_sends_what_was_typed(
    registers: Seq<RegisterDef>,
    name: Seq<char>,
    raw: Seq<char>,
    events: Seq<BusEvent>,
    r: Result<(), AppFault>,
    i: int,
)
    requires
        sets(registers, name, raw, events, r),
        0 <= i < registers.len(),
        registers[i].name@ == name,
        forall|j: int| 0 <= j < i ==> (#[trigger] registers[j]).name@ != name,
    ensures
        ({
            let def = registers[i];
            let to_holding = def.writable && def.kind == RegisterKind::Holding;
            let to_coil = def.writable && def.kind == RegisterKind::Coil;
            let outcome = |reply: BusReply|
                if reply is Failed {
                    r == Err::<(), AppFault>(AppFault::Modbus(reply->Failed_0))
                } else {
                    r == Ok::<(), AppFault>(())
                };
            &&& !to_holding && !to_coil ==> events.len() == 0 && r == Err::<(), AppFault>(
                AppFault::NotWritable { name },
            )
            &&& to_holding ==> match def.value_type.parsed_word(raw) {
                Err(source) => events.len() == 0 && r == Err::<(), AppFault>(
                    AppFault::Parse { name, source },
                ),
                Ok(word) => if would_stop_a_fan(name, word as int) {
                    events.len() == 0 && (r matches Err(AppFault::Refused { name: n, reason }) && n
                        == name)
                } else if def.value_type != RegisterValueType::Mode {
                    events.len() == 1 && events[0].request == (BusRequest::WriteHolding {
                        address: def.address,
                        value: word,
                    }) && outcome(events[0].reply)
                } else {
                    events.len() >= 1 && events[0].request == (BusRequest::ReadHolding {
                        address: def.address,
                        count: 1,
                    }) && match events[0].reply {
                        BusReply::Words(words) => if words.len() > 0 && words[0] % 4 == word {
                            events.len() == 1 && r == Ok::<(), AppFault>(())
                        } else {
                            events.len() == 2 && (
                            events[1].request matches BusRequest::WriteHolding { address, value }
                                && address == def.address && value % 4 == word && value / 4 == (
                            if words.len() > 0 {
                                words[0] / 4
                            } else {
                                0
                            })) && outcome(events[1].reply)
                        },
                        BusReply::Failed(fault) => events.len() == 1 && outcome(events[0].reply),
                        _ => false,
                    }
                },
            }
            &&& to_coil ==> match def.value_type.parsed_bit(raw) {
                Err(source) => events.len() == 0 && r == Err::<(), AppFault>(
                    AppFault::Parse { name, source },
                ),
                Ok(bit) => if would_stop_a_fan(
                    name,
                    if bit {
                        1
                    } else {
                        0
                    },
                ) {
                    events.len() == 0 && (r matches Err(AppFault::Refused { name: n, reason }) && n
                        == name)
                } else {
                    events.len() == 1 && events[0].request == (BusRequest::WriteCoil {
                        address: def.address,
                        bit,
                    }) && outcome(events[0].reply)
                },
            }
        }),
{
    let def = registers[i];
    lemma_first_definition(registers, i);
    if def.writable && def.kind == RegisterKind::Holding && def.value_type
        == RegisterValueType::Mode {
        match ModeSelection::parsed(raw) {
            Ok(mode) => {
                domain::law_typed_mode_is_its_number(raw, mode);
                let bits = mode.bits();
                if events.len() > 0 && events[0].reply is Words {
                    let words = events[0].reply->Words_0;
                    let current = if words.len() > 0 {
                        words[0]
                    } else {
                        0
                    };
                    lemma_with_mode(current, bits);
                }
            },
            Err(_) => {},
        }
    }
}

/// A name that no register has is told as unknown, and nothing is sent.
pub proof fn law_set_of_an_unknown_name(
    registers: Seq<RegisterDef>,
    name: Seq<char>,
    raw: Seq<char>,
    events: Seq<BusEvent>,
    r: Result<(), AppFault>,
)
    requires
        sets(registers, name, raw, events, r),
        forall|i: int| 0 <= i < registers.len() ==> (#[trigger] registers[i]).name@ != name,
    ensures
        events.len() == 0,
        r == Err::<(), AppFault>(AppFault::UnknownRegister { name }),
{
    domain::law_lookup_finds_the_first(registers, name);
}

proof fn lemma_first_definition(registers: Seq<RegisterDef>, i: int)
    requires
        0 <= i < registers.len(),
        forall|j: int| 0 <= j < i ==> (#[trigger] registers[j]).name@ != registers[i].name@,
    ensures
        domain::definition_named(registers, registers[i].name@) == Some(registers[i]),
{
    let name = registers[i].name@;
    domain::law_lookup_finds_the_first(registers, name);
    match domain::definition_named(registers, name) {
        Some(def) => {
            let k = choose|k: int|
                0 <= k < registers.len() && registers[k] == def && def.name@ == name && (forall|
                    j: int,
                |
                    0 <= j < k ==> (#[trigger] registers[j]).name@ != name);
            assert(registers[k].name@ == name);
            if i < k {
                assert(registers[i].name@ != name);
            }
        },
        None => {
            assert(registers[i].name@ != name);
        },
    }
}

proof fn lemma_with_mode(current: u16, bits: u16)
    requires
        bits < 4,
    ensures
        with_mode(current, bits) % 4 == bits,
        with_mode(current, bits) / 4 == current / 4,
        with_mode(current, bits) == current <==> current % 4 == bits,
{
    let merged = (current & !3u16) | (bits & 3);
    assert(merged % 4 == bits && merged / 4 == current / 4) by (bit_vector)
        requires
            merged == (current & !3u16) | (bits & 3),
            bits < 4,
    ;
}

/// Setting a register of the fake stores the typed word, bit or mode at the
/// register's address, in the address space of its kind, and changes nothing
/// else; a mode replaces the remainder modulo 4 of what was stored. What is
/// refused changes nothing.
pub proof fn law_fake_set_stores_what_was_typed(
    pre: FakeModbusClient,
    registers: Seq<RegisterDef>,
    name: Seq<char>,
    raw: Seq<char>,
    events: Seq<BusEvent>,
    r: Result<(), AppFault>,
    post: FakeModbusClient,
    i: int,
)
    requires
        sets(registers, name, raw, events, r),
        exchanged(pre, events, post),
        0 <= i < registers.len(),
        registers[i].name@ == name,
        forall|j: int| 0 <= j < i ==> (#[trigger] registers[j]).name@ != name,
    ensures
        post.input@ == pre.input@,
        post.discrete@ == pre.discrete@,
        r is Err ==> same_maps(pre, post),
        r is Ok ==> ({
            let def = registers[i];
            let a = def.address;
            let current = if pre.holding@.contains_key(a) {
                pre.holding@[a]
            } else {
                0
            };
            match def.kind {
                RegisterKind::Holding => post.coils@ == pre.coils@ && (
                def.value_type.parsed_word(raw) matches Ok(word) && if def.value_type
                    != RegisterValueType::Mode {
                    post.holding@ == pre.holding@.insert(a, word)
                } else if current % 4 == word {
                    post.holding@ == pre.holding@
                } else {
                    post.holding@.contains_key(a) && post.holding@[a] % 4 == word
                        && post.holding@[a] / 4 == current / 4 && post.holding@
                        == pre.holding@.insert(a, post.holding@[a])
                }),
                RegisterKind::Coil => post.holding@ == pre.holding@ && (def.value_type.parsed_bit(
                    raw,
                ) matches Ok(bit) && post.coils@ == pre.coils@.insert(a, bit)),
                _ => false,
            }
        }),
{
    lemma_first_definition(registers, i);
    law_fake_stores_the_write(pre, registers, name, raw, events, r, post);
    law_set_sends_what_was_typed(registers, name, raw, events, r, i);
    let def = registers[i];
    if def.writable && def.kind == RegisterKind::Holding && def.value_type
        == RegisterValueType::Mode {
        match ModeSelection::parsed(raw) {
            Ok(mode) => {
                domain::law_typed_mode_is_its_number(raw, mode);
                lemma_with_mode(modbus::word_at(pre@.holding, def.address as int), mode.bits());
            },
            Err(_) => {},
        }
    }
}


/// An error of an operation tells in its words the register and what went
/// wrong with it.
pub proof fn law_faults_in_words(
    name: Seq<char>,
    reason: Seq<char>,
    source: ValueFault,
    fault: BusFault,
)
    ensures
        (AppFault::UnknownRegister { name }).text() == "unknown register `"@ + name + "`"@,
        (AppFault::NotWritable { name }).text() == "register `"@ + name + "` is not writable"@,
        (AppFault::Refused { name, reason }).text() == "register `"@ + name
            + "`: write refused: "@ + reason,
        (AppFault::Decode { name, source }).text() == "register `"@ + name
            + "`: value decode failed: "@ + source.text(),
        (AppFault::Parse { name, source }).text() == "register `"@ + name
            + "`: could not parse value: "@ + source.text(),
        AppFault::Modbus(fault).text() == "modbus error: "@ + fault.text(),
{
}

/// Whatever the client answers, a poll asks for the registers in their order,
/// each once and in its own address space, and for no register behind one that
/// failed; where it succeeds, every entry is what its reply holds, under the
/// name of its register; where it fails, the error is that of the last reply.
pub proof fn law_poll_asks_in_order(
    registers: Seq<RegisterDef>,
    events: Seq<BusEvent>,
    r: Result<Seq<SnapshotEntry>, AppFault>,
    i: int,
)
    requires
        polls(registers, events, r),
        0 <= i < events.len(),
    ensures
        events.len() <= registers.len(),
        ({
            let (def, a) = (registers[i], registers[i].address);
            events[i].request == match def.kind {
                RegisterKind::Holding => BusRequest::ReadHolding { address: a, count: 1 },
                RegisterKind::Input => BusRequest::ReadInput { address: a, count: 1 },
                RegisterKind::Coil => BusRequest::ReadCoils { address: a, count: 1 },
                RegisterKind::Discrete => BusRequest::ReadDiscrete { address: a, count: 1 },
            }
        }),
        r matches Ok(entries) ==> events.len() == registers.len() && entries.len()
            == registers.len() && entries[i].name@ == registers[i].name@ && value_in(
            registers[i],
            events[i].reply,
        ) == Ok::<RegisterValue, AppFault>(entries[i].value),
        r matches Err(fault) ==> if i < events.len() - 1 {
            value_in(registers[i], events[i].reply) is Ok
        } else {
            value_in(registers[i], events[i].reply) == Err::<RegisterValue, AppFault>(fault)
        },
{
    assert(events[i].request == read_request(registers[i]));
    match r {
        Ok(entries) => {
            assert(entry_in(registers[i], events[i].reply) == Ok::<Reading, AppFault>(entries[i]@));
        },
        Err(fault) => {
            if i < events.len() - 1 {
                assert(entry_in(registers[i], events[i].reply) is Ok);
            }
        },
    }
}

/// Whatever the client answers, reading a register by its name asks once, for
/// the first register of that name, in its own address space, and gives what
/// the reply holds.
pub proof fn law_read_asks_once(
    registers: Seq<RegisterDef>,
    events: Seq<BusEvent>,
    r: Result<Reading, AppFault>,
    i: int,
)
    requires
        0 <= i < registers.len(),
        forall|j: int| 0 <= j < i ==> (#[trigger] registers[j]).name@ != registers[i].name@,
        reads_one(registers, registers[i].name@, events, r),
    ensures
        events.len() == 1,
        ({
            let (def, a) = (registers[i], registers[i].address);
            events[0].request == match def.kind {
                RegisterKind::Holding => BusRequest::ReadHolding { address: a, count: 1 },
                RegisterKind::Input => BusRequest::ReadInput { address: a, count: 1 },
                RegisterKind::Coil => BusRequest::ReadCoils { address: a, count: 1 },
                RegisterKind::Discrete => BusRequest::ReadDiscrete { address: a, count: 1 },
            }
        }),
        match value_in(registers[i], events[0].reply) {
            Ok(value) => r matches Ok(reading) && reading.value == value && reading.name
                == registers[i].name@,
            Err(fault) => r == Err::<Reading, AppFault>(fault),
        },
{
    lemma_first_definition(registers, i);
}

} // verus!
