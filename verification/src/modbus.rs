//! Modbus client abstraction.
//!
//! Defines [`ModbusClient`], the narrow interface to a device, and
//! [`FakeModbusClient`], an in-memory implementation for tests.
//!
//! The operations in [`crate::app`] use a client through a [`Bus`], which
//! keeps, as ghost state, the log of what went over it: the request and the
//! reply of each call. They state what they do by the events they add, and by
//! [`exchanged`]: these are the requests that were put to the client, in that
//! order, and the client gave these replies.

use crate::text::{self, push_decimal};
use std::collections::HashMap;
use vstd::prelude::*;

verus! {

broadcast use vstd::std_specs::hash::group_hash_axioms;

// ---------------------------------------------------------------------
// Errors
// ---------------------------------------------------------------------

/// What a [`ModbusError`] stands for.
pub enum BusFault {
    /// DNS lookup for `host:port` returned no results.
    Resolve { endpoint: Seq<char> },
    /// A request did not complete inside the configured timeout.
    Timeout { millis: u64 },
    /// I/O error from the TCP transport.
    Io(Seq<char>),
    /// Transport-layer error.
    Transport(Seq<char>),
    /// The device replied with a Modbus protocol exception.
    Exception(Seq<char>),
}

impl BusFault {
    /// The fault in words.
    pub open spec fn text(self) -> Seq<char> {
        match self {
            BusFault::Resolve { endpoint } => "could not resolve `"@ + endpoint
                + "` to a socket address"@,
            BusFault::Timeout { millis } => "modbus operation timed out after "@ + text::decimal(
                millis as nat,
            ) + " ms"@,
            BusFault::Io(detail) => "modbus transport I/O error: "@ + detail,
            BusFault::Transport(detail) => "modbus transport error: "@ + detail,
            BusFault::Exception(detail) => "modbus exception: "@ + detail,
        }
    }
}

/// Errors surfaced by [`ModbusClient`] implementations.
#[derive(Debug, PartialEq, Eq)]
pub enum ModbusError {
    /// DNS lookup for `host:port` returned no results.
    Resolve {
        /// The `host:port` string that failed to resolve.
        endpoint: String,
    },
    /// A request did not complete inside the configured timeout.
    Timeout {
        /// Configured timeout, surfaced for log clarity.
        millis: u64,
    },
    /// Underlying I/O error from the TCP transport.
    Io(String),
    /// Transport-layer error (framing, decode, mid-request disconnect).
    Transport(String),
    /// The device replied with a Modbus protocol exception (e.g.
    /// `IllegalDataAddress`, `SlaveDeviceBusy`).
    Exception(String),
}

impl View for ModbusError {
    type V = BusFault;

    open spec fn view(&self) -> BusFault {
        match *self {
            ModbusError::Resolve { endpoint } => BusFault::Resolve { endpoint: endpoint@ },
            ModbusError::Timeout { millis } => BusFault::Timeout { millis },
            ModbusError::Io(detail) => BusFault::Io(detail@),
            ModbusError::Transport(detail) => BusFault::Transport(detail@),
            ModbusError::Exception(detail) => BusFault::Exception(detail@),
        }
    }
}

impl ModbusError {
    /// The error in words.
    pub fn to_string(&self) -> (r: String)
        ensures
            r@ == self@.text(),
    {
        match self {
            ModbusError::Resolve { endpoint } => {
                let mut out = "could not resolve `".to_owned();
                out.append(endpoint.as_str());
                out.append("` to a socket address");
                out
            },
            ModbusError::Timeout { millis } => {
                let mut out = "modbus operation timed out after ".to_owned();
                push_decimal(&mut out, *millis);
                out.append(" ms");
                out
            },
            ModbusError::Io(detail) => {
                let mut out = "modbus transport I/O error: ".to_owned();
                out.append(detail.as_str());
                out
            },
            ModbusError::Transport(detail) => {
                let mut out = "modbus transport error: ".to_owned();
                out.append(detail.as_str());
                out
            },
            ModbusError::Exception(detail) => {
                let mut out = "modbus exception: ".to_owned();
                out.append(detail.as_str());
                out
            },
        }
    }
}

// ---------------------------------------------------------------------
// The bus
// ---------------------------------------------------------------------

/// What a client asks of the device.
pub enum BusRequest {
    /// Read holding registers (FC 0x03).
    ReadHolding { address: u16, count: u16 },
    /// Read input registers (FC 0x04).
    ReadInput { address: u16, count: u16 },
    /// Read coils (FC 0x01).
    ReadCoils { address: u16, count: u16 },
    /// Read discrete inputs (FC 0x02).
    ReadDiscrete { address: u16, count: u16 },
    /// Write a single holding register (FC 0x06).
    WriteHolding { address: u16, value: u16 },
    /// Write a single coil (FC 0x05).
    WriteCoil { address: u16, bit: bool },
}

impl BusRequest {
    /// The request changes something on the device.
    pub open spec fn is_write(self) -> bool {
        self is WriteHolding || self is WriteCoil
    }
}

/// What came of a request.
pub enum BusReply {
    /// Words were read.
    Words(Seq<u16>),
    /// Bits were read.
    Bits(Seq<bool>),
    /// A write was acknowledged.
    Done,
    /// The request failed.
    Failed(BusFault),
}

/// One exchange on the bus.
pub struct BusEvent {
    pub request: BusRequest,
    pub reply: BusReply,
}

/// The reply behind the result of reading words.
pub open spec fn words_reply(r: Result<Vec<u16>, ModbusError>) -> BusReply {
    match r {
        Ok(words) => BusReply::Words(words@),
        Err(e) => BusReply::Failed(e@),
    }
}

/// The reply behind the result of reading bits.
pub open spec fn bits_reply(r: Result<Vec<bool>, ModbusError>) -> BusReply {
    match r {
        Ok(bits) => BusReply::Bits(bits@),
        Err(e) => BusReply::Failed(e@),
    }
}

/// The reply behind the result of a write.
pub open spec fn write_reply(r: Result<(), ModbusError>) -> BusReply {
    match r {
        Ok(_) => BusReply::Done,
        Err(e) => BusReply::Failed(e@),
    }
}

/// Narrow interface over the Modbus client. All addresses are zero-based.
///
/// Each method puts one request to the client. [`ModbusClient::answers`] says
/// how the client may answer it and what becomes of the client; what is
/// stated over it holds of every implementation, whatever it answers.
pub trait ModbusClient: Send + Sized {
    /// Asked `request`, a client that was `pre` may give `reply` and be `post`
    /// from then on.
    ///
    /// An implementation that says nothing here leaves its answers open.
    open spec fn answers(pre: Self, request: BusRequest, reply: BusReply, post: Self) -> bool {
        true
    }

    /// Read `count` holding registers starting at `address` (FC 0x03).
    ///
    /// # Errors
    /// See [`ModbusError`].
    fn read_holding(&mut self, address: u16, count: u16) -> (r: Result<Vec<u16>, ModbusError>)
        requires
            address + count <= 0x1_0000,
        ensures
            Self::answers(
                *old(self),
                BusRequest::ReadHolding { address, count },
                words_reply(r),
                *final(self),
            ),
    ;

    /// Read `count` input registers starting at `address` (FC 0x04).
    ///
    /// # Errors
    /// See [`ModbusError`].
    fn read_input(&mut self, address: u16, count: u16) -> (r: Result<Vec<u16>, ModbusError>)
        requires
            address + count <= 0x1_0000,
        ensures
            Self::answers(
                *old(self),
                BusRequest::ReadInput { address, count },
                words_reply(r),
                *final(self),
            ),
    ;

    /// Read `count` coils starting at `address` (FC 0x01).
    ///
    /// # Errors
    /// See [`ModbusError`].
    fn read_coils(&mut self, address: u16, count: u16) -> (r: Result<Vec<bool>, ModbusError>)
        requires
            address + count <= 0x1_0000,
        ensures
            Self::answers(
                *old(self),
                BusRequest::ReadCoils { address, count },
                bits_reply(r),
                *final(self),
            ),
    ;

    /// Read `count` discrete inputs starting at `address` (FC 0x02).
    ///
    /// # Errors
    /// See [`ModbusError`].
    fn read_discrete(&mut self, address: u16, count: u16) -> (r: Result<Vec<bool>, ModbusError>)
        requires
            address + count <= 0x1_0000,
        ensures
            Self::answers(
                *old(self),
                BusRequest::ReadDiscrete { address, count },
                bits_reply(r),
                *final(self),
            ),
    ;

    /// Write a single holding register (FC 0x06).
    ///
    /// # Errors
    /// See [`ModbusError`].
    fn write_holding(&mut self, address: u16, value: u16) -> (r: Result<(), ModbusError>)
        ensures
            Self::answers(
                *old(self),
                BusRequest::WriteHolding { address, value },
                write_reply(r),
                *final(self),
            ),
    ;

    /// Write a single coil (FC 0x05).
    ///
    /// # Errors
    /// See [`ModbusError`].
    fn write_coil(&mut self, address: u16, value: bool) -> (r: Result<(), ModbusError>)
        ensures
            Self::answers(
                *old(self),
                BusRequest::WriteCoil { address, bit: value },
                write_reply(r),
                *final(self),
            ),
    ;
}

/// A client together with the log of what went over it.
///
/// The log is ghost state: one [`BusEvent`] per call, in order. The client can
/// be looked at, but only used through the bus, so that nothing goes
/// unlogged.
pub struct Bus<C> {
    client: C,
    events: Ghost<Seq<BusEvent>>,
}

impl<C> Bus<C> {
    /// What went over the bus so far, in order.
    pub closed spec fn log(&self) -> Seq<BusEvent> {
        self.events@
    }

    /// The client.
    pub closed spec fn inner(&self) -> C {
        self.client
    }

    /// A bus over `client` that nothing went over yet.
    pub fn new(client: C) -> (r: Bus<C>)
        ensures
            r.log() == Seq::<BusEvent>::empty(),
            r.inner() == client,
    {
        Bus { client, events: Ghost(Seq::empty()) }
    }

    /// The client.
    pub fn client(&self) -> (r: &C)
        ensures
            *r == self.inner(),
    {
        &self.client
    }
}

impl<C: ModbusClient> Bus<C> {
    /// Read `count` holding registers starting at `address` (FC 0x03).
    ///
    /// # Errors
    /// See [`ModbusError`].
    pub fn read_holding(&mut self, address: u16, count: u16) -> (r: Result<Vec<u16>, ModbusError>)
        requires
            address + count <= 0x1_0000,
        ensures
            final(self).log() == old(self).log().push(
                (BusEvent { request: BusRequest::ReadHolding { address, count }, reply: words_reply(r) }),
            ),
            C::answers(
                old(self).inner(),
                BusRequest::ReadHolding { address, count },
                words_reply(r),
                final(self).inner(),
            ),
    {
        let r = self.client.read_holding(address, count);
        self.events = Ghost(
            self.events@.push(BusEvent { request: BusRequest::ReadHolding { address, count }, reply: words_reply(r) }),
        );
        r
    }

    /// Read `count` input registers starting at `address` (FC 0x04).
    ///
    /// # Errors
    /// See [`ModbusError`].
    pub fn read_input(&mut self, address: u16, count: u16) -> (r: Result<Vec<u16>, ModbusError>)
        requires
            address + count <= 0x1_0000,
        ensures
            final(self).log() == old(self).log().push(
                (BusEvent { request: BusRequest::ReadInput { address, count }, reply: words_reply(r) }),
            ),
            C::answers(
                old(self).inner(),
                BusRequest::ReadInput { address, count },
                words_reply(r),
                final(self).inner(),
            ),
    {
        let r = self.client.read_input(address, count);
        self.events = Ghost(
            self.events@.push(BusEvent { request: BusRequest::ReadInput { address, count }, reply: words_reply(r) }),
        );
        r
    }

    /// Read `count` coils starting at `address` (FC 0x01).
    ///
    /// # Errors
    /// See [`ModbusError`].
    pub fn read_coils(&mut self, address: u16, count: u16) -> (r: Result<Vec<bool>, ModbusError>)
        requires
            address + count <= 0x1_0000,
        ensures
            final(self).log() == old(self).log().push(
                (BusEvent { request: BusRequest::ReadCoils { address, count }, reply: bits_reply(r) }),
            ),
            C::answers(
                old(self).inner(),
                BusRequest::ReadCoils { address, count },
                bits_reply(r),
                final(self).inner(),
            ),
    {
        let r = self.client.read_coils(address, count);
        self.events = Ghost(
            self.events@.push(BusEvent { request: BusRequest::ReadCoils { address, count }, reply: bits_reply(r) }),
        );
        r
    }

    /// Read `count` discrete inputs starting at `address` (FC 0x02).
    ///
    /// # Errors
    /// See [`ModbusError`].
    pub fn read_discrete(&mut self, address: u16, count: u16) -> (r: Result<Vec<bool>, ModbusError>)
        requires
            address + count <= 0x1_0000,
        ensures
            final(self).log() == old(self).log().push(
                (BusEvent { request: BusRequest::ReadDiscrete { address, count }, reply: bits_reply(r) }),
            ),
            C::answers(
                old(self).inner(),
                BusRequest::ReadDiscrete { address, count },
                bits_reply(r),
                final(self).inner(),
            ),
    {
        let r = self.client.read_discrete(address, count);
        self.events = Ghost(
            self.events@.push(BusEvent { request: BusRequest::ReadDiscrete { address, count }, reply: bits_reply(r) }),
        );
        r
    }

    /// Write a single holding register (FC 0x06).
    ///
    /// # Errors
    /// See [`ModbusError`].
    pub fn write_holding(&mut self, address: u16, value: u16) -> (r: Result<(), ModbusError>)
        ensures
            final(self).log() == old(self).log().push(
                (BusEvent { request: BusRequest::WriteHolding { address, value }, reply: write_reply(r) }),
            ),
            C::answers(
                old(self).inner(),
                BusRequest::WriteHolding { address, value },
                write_reply(r),
                final(self).inner(),
            ),
    {
        let r = self.client.write_holding(address, value);
        self.events = Ghost(
            self.events@.push(BusEvent { request: BusRequest::WriteHolding { address, value }, reply: write_reply(r) }),
        );
        r
    }

    /// Write a single coil (FC 0x05).
    ///
    /// # Errors
    /// See [`ModbusError`].
    pub fn write_coil(&mut self, address: u16, value: bool) -> (r: Result<(), ModbusError>)
        ensures
            final(self).log() == old(self).log().push(
                (BusEvent { request: BusRequest::WriteCoil { address, bit: value }, reply: write_reply(r) }),
            ),
            C::answers(
                old(self).inner(),
                BusRequest::WriteCoil { address, bit: value },
                write_reply(r),
                final(self).inner(),
            ),
    {
        let r = self.client.write_coil(address, value);
        self.events = Ghost(
            self.events@.push(BusEvent { request: BusRequest::WriteCoil { address, bit: value }, reply: write_reply(r) }),
        );
        r
    }
}

/// The exchanges `events`, one after the other, take a client from `pre` to
/// `post`: each request was put to the client, and the client gave the reply.
pub open spec fn exchanged<C: ModbusClient>(pre: C, events: Seq<BusEvent>, post: C) -> bool
    decreases events.len(),
{
    if events.len() == 0 {
        pre == post
    } else {
        exists|mid: C|
            exchanged(pre, events.drop_last(), mid) && #[trigger] C::answers(
                mid,
                events.last().request,
                events.last().reply,
                post,
            )
    }
}

/// One more exchange continues the exchanges before it.
pub proof fn lemma_exchanged_more<C: ModbusClient>(
    pre: C,
    events: Seq<BusEvent>,
    mid: C,
    event: BusEvent,
    post: C,
)
    requires
        exchanged(pre, events, mid),
        C::answers(mid, event.request, event.reply, post),
    ensures
        exchanged(pre, events.push(event), post),
{
    assert(events.push(event).drop_last() =~= events);
}

/// One exchange, by itself.
pub proof fn lemma_exchanged_once<C: ModbusClient>(pre: C, event: BusEvent, post: C)
    requires
        C::answers(pre, event.request, event.reply, post),
    ensures
        exchanged(pre, seq![event], post),
{
    lemma_exchanged_more(pre, Seq::empty(), pre, event, post);
    assert(Seq::<BusEvent>::empty().push(event) =~= seq![event]);
}

// ---------------------------------------------------------------------
// The fake
// ---------------------------------------------------------------------

/// The word stored at `address`, or 0.
pub open spec fn word_at(words: Map<u16, u16>, address: int) -> u16 {
    if words.dom().contains(address as u16) {
        words[address as u16]
    } else {
        0
    }
}

/// The bit stored at `address`, or `false`.
pub open spec fn bit_at(bits: Map<u16, bool>, address: int) -> bool {
    bits.dom().contains(address as u16) && bits[address as u16]
}

/// The `count` words from `address` on.
pub open spec fn words_from(words: Map<u16, u16>, address: u16, count: u16) -> Seq<u16> {
    Seq::new(count as nat, |i: int| word_at(words, address + i))
}

/// The `count` bits from `address` on.
pub open spec fn bits_from(bits: Map<u16, bool>, address: u16, count: u16) -> Seq<bool> {
    Seq::new(count as nat, |i: int| bit_at(bits, address + i))
}

/// What a [`FakeModbusClient`] holds.
#[verifier::ext_equal]
pub struct Memory {
    pub holding: Map<u16, u16>,
    pub input: Map<u16, u16>,
    pub coils: Map<u16, bool>,
    pub discrete: Map<u16, bool>,
}

impl Memory {
    /// The answer to a request: every request succeeds.
    pub open spec fn answer(self, request: BusRequest) -> BusReply {
        match request {
            BusRequest::ReadHolding { address, count } => BusReply::Words(
                words_from(self.holding, address, count),
            ),
            BusRequest::ReadInput { address, count } => BusReply::Words(
                words_from(self.input, address, count),
            ),
            BusRequest::ReadCoils { address, count } => BusReply::Bits(
                bits_from(self.coils, address, count),
            ),
            BusRequest::ReadDiscrete { address, count } => BusReply::Bits(
                bits_from(self.discrete, address, count),
            ),
            BusRequest::WriteHolding { .. } | BusRequest::WriteCoil { .. } => BusReply::Done,
        }
    }

    /// What is held after a request: what a write stores, and all the rest as
    /// before.
    pub open spec fn after(self, request: BusRequest) -> Memory {
        match request {
            BusRequest::WriteHolding { address, value } => Memory {
                holding: self.holding.insert(address, value),
                ..self
            },
            BusRequest::WriteCoil { address, bit } => Memory {
                coils: self.coils.insert(address, bit),
                ..self
            },
            _ => self,
        }
    }

    /// What is held after the requests of `events`.
    pub open spec fn after_all(self, events: Seq<BusEvent>) -> Memory
        decreases events.len(),
    {
        if events.len() == 0 {
            self
        } else {
            self.after_all(events.drop_last()).after(events.last().request)
        }
    }
}

/// In-memory fake [`ModbusClient`] for unit tests.
///
/// Pre-seed `holding`, `input`, `coils`, and `discrete` maps with the
/// addresses a test expects to read. Writes against `holding` / `coils` are
/// persisted into the corresponding map.
#[derive(Debug)]
pub struct FakeModbusClient {
    /// Holding-register address → word.
    pub holding: HashMap<u16, u16>,
    /// Input-register address → word.
    pub input: HashMap<u16, u16>,
    /// Coil address → bit.
    pub coils: HashMap<u16, bool>,
    /// Discrete-input address → bit.
    pub discrete: HashMap<u16, bool>,
}

impl View for FakeModbusClient {
    type V = Memory;

    open spec fn view(&self) -> Memory {
        Memory {
            holding: self.holding@,
            input: self.input@,
            coils: self.coils@,
            discrete: self.discrete@,
        }
    }
}

fn read_words(words: &HashMap<u16, u16>, address: u16, count: u16) -> (r: Vec<u16>)
    requires
        address + count <= 0x1_0000,
    ensures
        r@ == words_from(words@, address, count),
{
    let mut out: Vec<u16> = Vec::new();
    let mut i: u16 = 0;
    while i < count
        invariant
            i <= count,
            address + count <= 0x1_0000,
            out@ == words_from(words@, address, i),
        decreases count - i,
    {
        let key: u16 = address + i;
        let word: u16 = match words.get(&key) {
            Some(w) => *w,
            None => 0,
        };
        out.push(word);
        i = i + 1;
        assert(out@ =~= words_from(words@, address, i));
    }
    out
}

fn read_bits(bits: &HashMap<u16, bool>, address: u16, count: u16) -> (r: Vec<bool>)
    requires
        address + count <= 0x1_0000,
    ensures
        r@ == bits_from(bits@, address, count),
{
    let mut out: Vec<bool> = Vec::new();
    let mut i: u16 = 0;
    while i < count
        invariant
            i <= count,
            address + count <= 0x1_0000,
            out@ == bits_from(bits@, address, i),
        decreases count - i,
    {
        let key: u16 = address + i;
        let bit: bool = match bits.get(&key) {
            Some(b) => *b,
            None => false,
        };
        out.push(bit);
        i = i + 1;
        assert(out@ =~= bits_from(bits@, address, i));
    }
    out
}

impl FakeModbusClient {
    /// Construct an empty fake.
    pub fn new() -> (r: FakeModbusClient)
        ensures
            r.holding@ == Map::<u16, u16>::empty(),
            r.input@ == Map::<u16, u16>::empty(),
            r.coils@ == Map::<u16, bool>::empty(),
            r.discrete@ == Map::<u16, bool>::empty(),
    {
        FakeModbusClient {
            holding: HashMap::new(),
            input: HashMap::new(),
            coils: HashMap::new(),
            discrete: HashMap::new(),
        }
    }
}

impl Default for FakeModbusClient {
    /// An empty fake.
    fn default() -> (r: FakeModbusClient)
        ensures
            r.holding@ == Map::<u16, u16>::empty(),
            r.input@ == Map::<u16, u16>::empty(),
            r.coils@ == Map::<u16, bool>::empty(),
            r.discrete@ == Map::<u16, bool>::empty(),
    {
        FakeModbusClient::new()
    }
}

impl ModbusClient for FakeModbusClient {
    open spec fn answers(
        pre: FakeModbusClient,
        request: BusRequest,
        reply: BusReply,
        post: FakeModbusClient,
    ) -> bool {
        &&& reply == pre@.answer(request)
        &&& post@ == pre@.after(request)
    }

    fn read_holding(&mut self, address: u16, count: u16) -> (r: Result<Vec<u16>, ModbusError>)
        ensures
            r matches Ok(words) && words@ == words_from(old(self).holding@, address, count),
            *final(self) == *old(self),
    {
        Ok(read_words(&self.holding, address, count))
    }

    fn read_input(&mut self, address: u16, count: u16) -> (r: Result<Vec<u16>, ModbusError>)
        ensures
            r matches Ok(words) && words@ == words_from(old(self).input@, address, count),
            *final(self) == *old(self),
    {
        Ok(read_words(&self.input, address, count))
    }

    fn read_coils(&mut self, address: u16, count: u16) -> (r: Result<Vec<bool>, ModbusError>)
        ensures
            r matches Ok(bits) && bits@ == bits_from(old(self).coils@, address, count),
            *final(self) == *old(self),
    {
        Ok(read_bits(&self.coils, address, count))
    }

    fn read_discrete(&mut self, address: u16, count: u16) -> (r: Result<Vec<bool>, ModbusError>)
        ensures
            r matches Ok(bits) && bits@ == bits_from(old(self).discrete@, address, count),
            *final(self) == *old(self),
    {
        Ok(read_bits(&self.discrete, address, count))
    }

    fn write_holding(&mut self, address: u16, value: u16) -> (r: Result<(), ModbusError>)
        ensures
            r is Ok,
            final(self).holding@ == old(self).holding@.insert(address, value),
            final(self).input == old(self).input,
            final(self).coils == old(self).coils,
            final(self).discrete == old(self).discrete,
    {
        self.holding.insert(address, value);
        Ok(())
    }

    fn write_coil(&mut self, address: u16, value: bool) -> (r: Result<(), ModbusError>)
        ensures
            r is Ok,
            final(self).coils@ == old(self).coils@.insert(address, value),
            final(self).holding == old(self).holding,
            final(self).input == old(self).input,
            final(self).discrete == old(self).discrete,
    {
        self.coils.insert(address, value);
        Ok(())
    }
}

/// What the fake holds after some exchanges follows from the requests alone,
/// and each reply from what it held when the request came.
pub proof fn law_fake_follows_the_requests(
    pre: FakeModbusClient,
    events: Seq<BusEvent>,
    post: FakeModbusClient,
)
    requires
        exchanged(pre, events, post),
    ensures
        post@ == pre@.after_all(events),
        forall|i: int|
            0 <= i < events.len() ==> (#[trigger] events[i]).reply == pre@.after_all(
                events.take(i),
            ).answer(events[i].request),
    decreases events.len(),
{
    if events.len() > 0 {
        let last = events.last();
        let mid = choose|mid: FakeModbusClient|
            exchanged(pre, events.drop_last(), mid) && #[trigger] FakeModbusClient::answers(
                mid,
                last.request,
                last.reply,
                post,
            );
        law_fake_follows_the_requests(pre, events.drop_last(), mid);
        assert forall|i: int| 0 <= i < events.len() implies (#[trigger] events[i]).reply
            == pre@.after_all(events.take(i)).answer(events[i].request) by {
            if i < events.len() - 1 {
                assert(events.drop_last()[i] == events[i]);
                assert(events.drop_last().take(i) =~= events.take(i));
            } else {
                assert(events.take(i) =~= events.drop_last());
            }
        }
    }
}

/// Reading leaves the fake as it is, and every reply tells what it holds.
pub proof fn law_reads_leave_the_fake_alone(
    pre: FakeModbusClient,
    events: Seq<BusEvent>,
    post: FakeModbusClient,
)
    requires
        exchanged(pre, events, post),
        forall|i: int| 0 <= i < events.len() ==> !(#[trigger] events[i]).request.is_write(),
    ensures
        post@ == pre@,
        forall|i: int|
            0 <= i < events.len() ==> (#[trigger] events[i]).reply == pre@.answer(
                events[i].request,
            ),
{
    law_fake_follows_the_requests(pre, events, post);
    lemma_reads_keep_memory(pre@, events);
    assert forall|i: int| 0 <= i < events.len() implies (#[trigger] events[i]).reply
        == pre@.answer(events[i].request) by {
        assert forall|j: int| 0 <= j < i implies !(
        #[trigger] events.take(i)[j]).request.is_write() by {
            assert(events.take(i)[j] == events[j]);
        }
        lemma_reads_keep_memory(pre@, events.take(i));
    }
}

proof fn lemma_reads_keep_memory(memory: Memory, events: Seq<BusEvent>)
    requires
        forall|i: int| 0 <= i < events.len() ==> !(#[trigger] events[i]).request.is_write(),
    ensures
        memory.after_all(events) == memory,
    decreases events.len(),
{
    if events.len() > 0 {
        assert forall|i: int| 0 <= i < events.len() - 1 implies !(
        #[trigger] events.drop_last()[i]).request.is_write() by {
            assert(events.drop_last()[i] == events[i]);
        }
        lemma_reads_keep_memory(memory, events.drop_last());
        assert(!events[events.len() - 1].request.is_write());
    }
}

/// A word that was written is read back, and the other addresses keep
/// theirs.
pub proof fn law_written_word_reads_back(words: Map<u16, u16>, address: u16, value: u16, other: u16)
    ensures
        words_from(words.insert(address, value), address, 1) == seq![value],
        other != address ==> words_from(words.insert(address, value), other, 1) == words_from(
            words,
            other,
            1,
        ),
{
    assert(words_from(words.insert(address, value), address, 1) =~= seq![value]);
    if other != address {
        assert(words_from(words.insert(address, value), other, 1) =~= words_from(words, other, 1));
    }
}

/// A bit that was written is read back, and the other addresses keep theirs.
pub proof fn law_written_bit_reads_back(bits: Map<u16, bool>, address: u16, value: bool, other: u16)
    ensures
        bits_from(bits.insert(address, value), address, 1) == seq![value],
        other != address ==> bits_from(bits.insert(address, value), other, 1) == bits_from(
            bits,
            other,
            1,
        ),
{
    assert(bits_from(bits.insert(address, value), address, 1) =~= seq![value]);
    if other != address {
        assert(bits_from(bits.insert(address, value), other, 1) =~= bits_from(bits, other, 1));
    }
}

/// An address that nothing was stored at reads as 0 or `false`.
pub proof fn law_unseeded_reads_zero(address: u16, count: u16)
    ensures
        words_from(Map::empty(), address, count) == Seq::new(count as nat, |i: int| 0u16),
        bits_from(Map::empty(), address, count) == Seq::new(count as nat, |i: int| false),
{
    assert(words_from(Map::empty(), address, count) =~= Seq::new(count as nat, |i: int| 0u16));
    assert(bits_from(Map::empty(), address, count) =~= Seq::new(count as nat, |i: int| false));
}


/// The word that a map holds at an address, 0 where it holds none.
pub open spec fn stored_word(words: Map<u16, u16>, address: int) -> u16 {
    if words.contains_key(address as u16) {
        words[address as u16]
    } else {
        0
    }
}

/// Every request to the fake succeeds. A read gives as many items as it asks
/// for, from the address on, out of the map of its own address space, and
/// changes nothing; a write stores its value at its address, in the map of its
/// own address space, and changes nothing else.
pub proof fn law_fake_keeps_its_maps(
    pre: FakeModbusClient,
    request: BusRequest,
    reply: BusReply,
    post: FakeModbusClient,
    i: int,
)
    requires
        FakeModbusClient::answers(pre, request, reply, post),
    ensures
        post.input@ == pre.input@,
        post.discrete@ == pre.discrete@,
        match request {
            BusRequest::ReadHolding { address, count } => reply matches BusReply::Words(words)
                && words.len() == count && (0 <= i < count ==> words[i] == stored_word(
                pre.holding@,
                address + i,
            )) && post.holding@ == pre.holding@ && post.coils@ == pre.coils@,
            BusRequest::ReadInput { address, count } => reply matches BusReply::Words(words)
                && words.len() == count && (0 <= i < count ==> words[i] == stored_word(
                pre.input@,
                address + i,
            )) && post.holding@ == pre.holding@ && post.coils@ == pre.coils@,
            BusRequest::ReadCoils { address, count } => reply matches BusReply::Bits(bits)
                && bits.len() == count && (0 <= i < count ==> (bits[i] <==> pre.coils@.contains_key(
                (address + i) as u16,
            ) && pre.coils@[(address + i) as u16])) && post.holding@ == pre.holding@ && post.coils@
                == pre.coils@,
            BusRequest::ReadDiscrete { address, count } => reply matches BusReply::Bits(bits)
                && bits.len() == count && (0 <= i < count ==> (bits[i]
                <==> pre.discrete@.contains_key((address + i) as u16) && pre.discrete@[(address
                + i) as u16])) && post.holding@ == pre.holding@ && post.coils@ == pre.coils@,
            BusRequest::WriteHolding { address, value } => reply is Done && post.holding@
                == pre.holding@.insert(address, value) && post.coils@ == pre.coils@,
            BusRequest::WriteCoil { address, bit } => reply is Done && post.coils@
                == pre.coils@.insert(address, bit) && post.holding@ == pre.holding@,
        },
{
}

/// The requests that change the device are those that write.
pub proof fn law_only_writes_are_writes(request: BusRequest)
    ensures
        request.is_write() <==> !(request is ReadHolding || request is ReadInput
            || request is ReadCoils || request is ReadDiscrete),
{
}


/// An error of the bus tells in its words what it is about.
pub proof fn law_bus_faults_in_words(detail: Seq<char>, millis: u64)
    ensures
        (BusFault::Resolve { endpoint: detail }).text() == "could not resolve `"@ + detail
            + "` to a socket address"@,
        (BusFault::Timeout { millis }).text() == "modbus operation timed out after "@
            + text::decimal(millis as nat) + " ms"@,
        BusFault::Io(detail).text() == "modbus transport I/O error: "@ + detail,
        BusFault::Transport(detail).text() == "modbus transport error: "@ + detail,
        BusFault::Exception(detail).text() == "modbus exception: "@ + detail,
{
}

/// The log keeps the words and bits that were read and the error that came.
pub proof fn law_replies_as_they_came(
    words: Result<Vec<u16>, ModbusError>,
    bits: Result<Vec<bool>, ModbusError>,
    written: Result<(), ModbusError>,
)
    ensures
        words matches Ok(v) ==> words_reply(words) == BusReply::Words(v@),
        words matches Err(e) ==> words_reply(words) == BusReply::Failed(e@),
        bits matches Ok(v) ==> bits_reply(bits) == BusReply::Bits(v@),
        bits matches Err(e) ==> bits_reply(bits) == BusReply::Failed(e@),
        written is Ok ==> write_reply(written) == BusReply::Done,
        written matches Err(e) ==> write_reply(written) == BusReply::Failed(e@),
{
}

} // verus!
