//! The mini UART driver: what it decides from the registers it has read.
//!
//! The driver polls. Each function here is one turn of a polling loop: it is
//! given what was just read from the hardware and says what to do next. The
//! caller performs the access and, where told to, polls again.

use vstd::prelude::*;
use vstd::string::StringSliceAdditionalSpecFns;

verus! {

/// The baud-rate divisor that gives about 115200 baud.
pub const BAUD_DIVISOR: u16 = 270;

/// The bit of the auxiliary enables register that switches the mini UART on.
pub const AUX_ENABLE_UART: u8 = 1;

/// The bits of the line control register that select 8-bit mode.
pub const LCR_8_BIT: u8 = 3;

/// The bits of the control register that enable transmitter and receiver.
pub const CNTL_TX_RX: u8 = 3;

/// The pin that carries transmitted data.
pub const PIN_TXD: u8 = 14;

/// The pin that carries received data.
pub const PIN_RXD: u8 = 15;

/// The alternate pin function that connects a pin to the mini UART.
pub const PIN_ALT: u8 = 5;

/// Whether every bit of `mask` is set in the register value `value`.
pub fn has_mask(value: u8, mask: u8) -> (r: bool)
    ensures
        r == (value & mask == mask),
{
    value & mask == mask
}

/// The register value `value` with the bits of `mask` set as well.
pub fn or_mask(value: u8, mask: u8) -> (r: u8)
    ensures
        r == value | mask,
{
    value | mask
}

/// A bit of the line status register.
#[derive(Debug, Clone, Copy, PartialEq, Eq, Structural)]
pub enum LsrStatus {
    /// The receiver holds a byte.
    DataReady,
    /// The transmitter can take a byte.
    TxAvailable,
}

impl LsrStatus {
    /// The bit as a mask on the register value.
    pub open spec fn spec_mask(self) -> u8 {
        match self {
            LsrStatus::DataReady => 0x01,
            LsrStatus::TxAvailable => 0x20,
        }
    }

    /// The bit as a mask on the register value.
    #[verifier::when_used_as_spec(spec_mask)]
    pub fn mask(self) -> (m: u8)
        ensures
            m == self.spec_mask(),
    {
        match self {
            LsrStatus::DataReady => 0x01,
            LsrStatus::TxAvailable => 0x20,
        }
    }
}

/// Whether the line status `lsr` says that a received byte waits.
pub open spec fn data_ready(lsr: u8) -> bool {
    lsr & 0x01 == 0x01
}

/// Whether the line status `lsr` says that a byte can be transmitted.
pub open spec fn tx_available(lsr: u8) -> bool {
    lsr & 0x20 == 0x20
}

/// A register that the driver touches.
#[derive(Debug, Clone, Copy, PartialEq, Eq, Structural)]
pub enum Register {
    /// Auxiliary enables.
    AuxEnables,
    /// Baud-rate divisor.
    Baud,
    /// Line control.
    Lcr,
    /// Extra control.
    Cntl,
}

/// One access of the sequence that brings the UART up.
#[derive(Debug, Clone, Copy, PartialEq, Eq, Structural)]
pub enum Setup {
    /// Read the register, set the bits of `mask`, write it back.
    OrMask { reg: Register, mask: u8 },
    /// Write `value` to the register.
    Write { reg: Register, value: u16 },
    /// Give `pin` the alternate function `function`.
    PinFunction { pin: u8, function: u8 },
}

/// The accesses that bring the UART up, in the order in which they are made:
/// switch the peripheral on, hand both pins to it, set the baud rate, select
/// 8-bit mode, enable transmitter and receiver.
pub open spec fn setup_sequence() -> Seq<Setup> {
    seq![
        Setup::OrMask { reg: Register::AuxEnables, mask: AUX_ENABLE_UART },
        Setup::PinFunction { pin: PIN_TXD, function: PIN_ALT },
        Setup::PinFunction { pin: PIN_RXD, function: PIN_ALT },
        Setup::Write { reg: Register::Baud, value: BAUD_DIVISOR },
        Setup::OrMask { reg: Register::Lcr, mask: LCR_8_BIT },
        Setup::OrMask { reg: Register::Cntl, mask: CNTL_TX_RX },
    ]
}

/// The registers that the setup writes, as values.
pub struct Configuration {
    pub aux_enables: u8,
    pub baud: u16,
    pub lcr: u8,
    pub cntl: u8,
}

/// The registers after one access of the setup.
pub open spec fn configured(regs: Configuration, step: Setup) -> Configuration {
    match step {
        Setup::OrMask { reg: Register::AuxEnables, mask } => Configuration {
            aux_enables: regs.aux_enables | mask,
            ..regs
        },
        Setup::OrMask { reg: Register::Lcr, mask } => Configuration { lcr: regs.lcr | mask, ..regs },
        Setup::OrMask { reg: Register::Cntl, mask } => Configuration {
            cntl: regs.cntl | mask,
            ..regs
        },
        Setup::OrMask { reg: Register::Baud, mask } => Configuration {
            baud: regs.baud | mask as u16,
            ..regs
        },
        Setup::Write { reg: Register::AuxEnables, value } => Configuration {
            aux_enables: value as u8,
            ..regs
        },
        Setup::Write { reg: Register::Lcr, value } => Configuration { lcr: value as u8, ..regs },
        Setup::Write { reg: Register::Cntl, value } => Configuration { cntl: value as u8, ..regs },
        Setup::Write { reg: Register::Baud, value } => Configuration { baud: value, ..regs },
        Setup::PinFunction { .. } => regs,
    }
}

/// The registers after a run of accesses, first to last.
pub open spec fn configured_by(regs: Configuration, steps: Seq<Setup>) -> Configuration
    decreases steps.len(),
{
    if steps.len() == 0 {
        regs
    } else {
        configured(configured_by(regs, steps.drop_last()), steps.last())
    }
}

/// Why a wait for a byte ended without one.
#[derive(Debug, Clone, Copy, PartialEq, Eq, Structural)]
pub struct Timeout;

/// What the driver does next with the data register.
#[derive(Debug, Clone, Copy, PartialEq, Eq, Structural)]
pub enum Next {
    /// Nothing yet: read the line status again.
    Poll,
    /// Read it: it holds a received byte.
    Read,
    /// Write this byte to it.
    Write(u8),
}

/// One turn of writing `byte` when the line status reads `lsr`: write it if
/// the transmitter can take it, else poll again.
pub open spec fn write_turn(lsr: u8, byte: u8) -> Next {
    if tx_available(lsr) {
        Next::Write(byte)
    } else {
        Next::Poll
    }
}

/// One turn of reading a byte when the line status reads `lsr`: read the
/// data register if a byte waits in it, else poll again.
pub open spec fn read_turn(lsr: u8) -> Next {
    if data_ready(lsr) {
        Next::Read
    } else {
        Next::Poll
    }
}

/// How a wait for a byte stands, `elapsed` after it began: a wait with a
/// limit ends in `Timeout` once more than the limit has elapsed; until then,
/// and without a limit, it ends well when a byte is there, and else goes on.
/// A byte that is ready when the wait begins is therefore always reported,
/// even with a limit of 0.
pub open spec fn wait_verdict(timeout: Option<u64>, elapsed: int, lsr: u8) -> Option<
    Result<(), Timeout>,
> {
    if timeout matches Some(limit) && elapsed > limit {
        Some(Err(Timeout))
    } else if data_ready(lsr) {
        Some(Ok(()))
    } else {
        None
    }
}

/// The bytes sent for the bytes `text`: each line feed goes out as a
/// carriage return and a line feed, every other byte as itself.
pub open spec fn wire_bytes(text: Seq<u8>) -> Seq<u8>
    decreases text.len(),
{
    if text.len() == 0 {
        Seq::empty()
    } else if text.last() == 10 {
        wire_bytes(text.drop_last()) + seq![13u8, 10u8]
    } else {
        wire_bytes(text.drop_last()) + seq![text.last()]
    }
}

/// The mini UART: its read timeout in milliseconds, if it has one.
#[derive(Debug, Clone, Copy)]
pub struct MiniUart {
    timeout: Option<u64>,
}

impl View for MiniUart {
    type V = Option<u64>;

    closed spec fn view(&self) -> Option<u64> {
        self.timeout
    }
}

impl MiniUart {
    /// A UART without a read timeout, and the accesses that bring the
    /// hardware up for it.
    pub fn new() -> (r: (MiniUart, [Setup; 6]))
        ensures
            r.0@ is None,
            r.1@ == setup_sequence(),
    {
        let setup = [
            Setup::OrMask { reg: Register::AuxEnables, mask: AUX_ENABLE_UART },
            Setup::PinFunction { pin: PIN_TXD, function: PIN_ALT },
            Setup::PinFunction { pin: PIN_RXD, function: PIN_ALT },
            Setup::Write { reg: Register::Baud, value: BAUD_DIVISOR },
            Setup::OrMask { reg: Register::Lcr, mask: LCR_8_BIT },
            Setup::OrMask { reg: Register::Cntl, mask: CNTL_TX_RX },
        ];
        assert(setup@ =~= setup_sequence());
        (MiniUart { timeout: None }, setup)
    }

    /// Sets the read timeout to `milliseconds`.
    pub fn set_read_timeout(&mut self, milliseconds: u64)
        ensures
            final(self)@ == Some(milliseconds),
    {
        self.timeout = Some(milliseconds);
    }

    /// The read timeout in milliseconds, if one is set.
    pub fn read_timeout(&self) -> (t: Option<u64>)
        ensures
            t == self@,
    {
        self.timeout
    }

    /// One turn of writing `byte`: write it once the line status `lsr` says
    /// that the transmitter can take it, poll again until then.
    pub fn write_byte(&self, lsr: u8, byte: u8) -> (next: Next)
        ensures
            next == write_turn(lsr, byte),
    {
        if has_mask(lsr, LsrStatus::TxAvailable.mask()) {
            Next::Write(byte)
        } else {
            Next::Poll
        }
    }

    /// Whether the line status `lsr` says that a byte is ready to be read.
    pub fn has_byte(&self, lsr: u8) -> (ready: bool)
        ensures
            ready == data_ready(lsr),
    {
        has_mask(lsr, LsrStatus::DataReady.mask())
    }

    /// One turn of waiting for a byte. The wait began at `start_time`, it is
    /// now `cur_time`, both in milliseconds of one clock, and the line status
    /// reads `lsr`. `None` says to look at clock and line status again.
    pub fn wait_for_byte(&self, start_time: u64, cur_time: u64, lsr: u8) -> (r: Option<
        Result<(), Timeout>,
    >)
        ensures
            r == wait_verdict(self@, cur_time - start_time, lsr),
    {
        if let Some(limit) = self.timeout {
            if cur_time >= start_time && cur_time - start_time > limit {
                return Some(Err(Timeout));
            }
        }
        if self.has_byte(lsr) {
            Some(Ok(()))
        } else {
            None
        }
    }

    /// One turn of reading a byte: read the data register once the line
    /// status `lsr` says that it holds a byte, poll again until then. The
    /// timeout plays no part.
    pub fn read_byte(&self, lsr: u8) -> (next: Next)
        ensures
            next == read_turn(lsr),
    {
        if self.has_byte(lsr) {
            Next::Read
        } else {
            Next::Poll
        }
    }

    /// The bytes to send for the text `s`, in order: a carriage return goes
    /// out before every line feed.
    pub fn write_str(&self, s: &str) -> (wire: Vec<u8>)
        ensures
            wire@ == wire_bytes(s.spec_bytes()),
    {
        let text = s.as_bytes();
        let mut wire: Vec<u8> = Vec::new();
        let mut i: usize = 0;
        assert(text@.take(0) =~= Seq::<u8>::empty());
        while i < text.len()
            invariant
                i <= text@.len(),
                wire@ == wire_bytes(text@.take(i as int)),
            decreases text@.len() - i,
        {
            let ghost done = text@.take(i as int);
            let ghost more = text@.take(i + 1);
            assert(more.drop_last() =~= done);
            assert(more.last() == text@[i as int]);
            if text[i] == 10 {
                wire.push(13);
            }
            wire.push(text[i]);
            assert(wire@ =~= wire_bytes(more));
            i += 1;
        }
        assert(text@.take(text@.len() as int) =~= text@);
        wire
    }

    /// One turn of draining received bytes into a buffer of `capacity` bytes
    /// of which `filled` are taken: read another byte while one is there
    /// and the buffer has room for it. The bytes are drained after a wait
    /// for the first; no further wait is made.
    pub fn read(&self, lsr: u8, filled: usize, capacity: usize) -> (more: bool)
        ensures
            more == (data_ready(lsr) && filled < capacity),
    {
        self.has_byte(lsr) && filled < capacity
    }
}

/// One look at the hardware during a wait: the clock and the line status.
pub struct Sample {
    pub time: u64,
    pub lsr: u8,
}

/// How a wait that began at `start` ends over the looks `samples`, taken in
/// order: with the first verdict that one of them gives. `None` says that
/// the wait still goes on after the last of them.
pub open spec fn wait_outcome(timeout: Option<u64>, start: u64, samples: Seq<Sample>) -> Option<
    Result<(), Timeout>,
>
    decreases samples.len(),
{
    if samples.len() == 0 {
        None
    } else {
        match wait_verdict(timeout, samples[0].time - start, samples[0].lsr) {
            Some(verdict) => Some(verdict),
            None => wait_outcome(timeout, start, samples.drop_first()),
        }
    }
}

/// While no byte arrives, a wait never ends well.
pub proof fn lemma_wait_not_ready_without_data(
    timeout: Option<u64>,
    start: u64,
    samples: Seq<Sample>,
)
    requires
        forall|i: int| 0 <= i < samples.len() ==> !data_ready(#[trigger] samples[i].lsr),
    ensures
        wait_outcome(timeout, start, samples) != Some(Ok::<(), Timeout>(())),
    decreases samples.len(),
{
    if samples.len() > 0 {
        assert(!data_ready(samples[0].lsr));
        let rest = samples.drop_first();
        assert forall|i: int| 0 <= i < rest.len() implies !data_ready(#[trigger] rest[i].lsr) by {
            assert(rest[i] == samples[i + 1]);
        }
        lemma_wait_not_ready_without_data(timeout, start, rest);
    }
}

/// A wait does not time out before its limit has passed: if it ends in
/// `Timeout`, one of the looks was taken more than the limit after the
/// start.
pub proof fn lemma_timeout_not_early(timeout: Option<u64>, start: u64, samples: Seq<Sample>)
    requires
        wait_outcome(timeout, start, samples) == Some(Err::<(), Timeout>(Timeout)),
    ensures
        timeout is Some,
        exists|i: int|
            0 <= i < samples.len() && (#[trigger] samples[i]).time - start > timeout->0,
    decreases samples.len(),
{
    if wait_verdict(timeout, samples[0].time - start, samples[0].lsr) is Some {
        assert(samples[0].time - start > timeout->0);
    } else {
        let rest = samples.drop_first();
        lemma_timeout_not_early(timeout, start, rest);
        let i = choose|i: int| 0 <= i < rest.len() && (#[trigger] rest[i]).time - start > timeout->0;
        assert(rest[i] == samples[i + 1]);
    }
}

/// A wait without a limit never times out, and does not end at all while
/// no byte arrives.
pub proof fn lemma_wait_without_limit(start: u64, samples: Seq<Sample>)
    ensures
        wait_outcome(None, start, samples) != Some(Err::<(), Timeout>(Timeout)),
        (forall|i: int| 0 <= i < samples.len() ==> !data_ready(#[trigger] samples[i].lsr))
            ==> wait_outcome(None, start, samples) is None,
    decreases samples.len(),
{
    if samples.len() > 0 {
        let rest = samples.drop_first();
        lemma_wait_without_limit(start, rest);
        if forall|i: int| 0 <= i < samples.len() ==> !data_ready(#[trigger] samples[i].lsr) {
            assert(!data_ready(samples[0].lsr));
            assert forall|i: int| 0 <= i < rest.len() implies !data_ready(
                #[trigger] rest[i].lsr,
            ) by {
                assert(rest[i] == samples[i + 1]);
            }
        }
    }
}

/// A wait with a limit has ended by the first look taken more than the
/// limit after the start.
pub proof fn lemma_wait_ends_past_limit(limit: u64, start: u64, samples: Seq<Sample>, late: int)
    requires
        0 <= late < samples.len(),
        samples[late].time - start > limit,
    ensures
        wait_outcome(Some(limit), start, samples) is Some,
    decreases samples.len(),
{
    if late > 0 && wait_verdict(Some(limit), samples[0].time - start, samples[0].lsr) is None {
        lemma_wait_ends_past_limit(limit, start, samples.drop_first(), late - 1);
    }
}

/// When the line status says that a byte is ready, the read that follows
/// does not poll, and a wait ends: well, unless more than its limit has
/// elapsed.
pub proof fn lemma_ready_byte_is_read(timeout: Option<u64>, elapsed: int, lsr: u8)
    requires
        data_ready(lsr),
    ensures
        read_turn(lsr) == Next::Read,
        wait_verdict(None, elapsed, lsr) == Some(Ok::<(), Timeout>(())),
        wait_verdict(timeout, elapsed, lsr) is Some,
        wait_verdict(timeout, elapsed, lsr) == Some(Err::<(), Timeout>(Timeout)) <==> timeout is Some
            && elapsed > timeout->0,
{
}

/// A byte that is ready when the wait begins is reported, whatever the
/// limit: the first look, taken at the start, ends the wait well.
pub proof fn lemma_ready_on_entry(timeout: Option<u64>, start: u64, samples: Seq<Sample>)
    requires
        samples.len() > 0,
        samples[0].time == start,
        data_ready(samples[0].lsr),
    ensures
        wait_verdict(timeout, 0, samples[0].lsr) == Some(Ok::<(), Timeout>(())),
        wait_outcome(timeout, start, samples) == Some(Ok::<(), Timeout>(())),
{
}

/// Whatever the registers held before, the setup leaves the peripheral
/// switched on, the baud rate set, 8-bit mode selected, and transmitter and
/// receiver enabled.
pub proof fn lemma_setup_configures(regs: Configuration)
    ensures
        configured_by(regs, setup_sequence()).aux_enables & AUX_ENABLE_UART == AUX_ENABLE_UART,
        configured_by(regs, setup_sequence()).baud == BAUD_DIVISOR,
        configured_by(regs, setup_sequence()).lcr & LCR_8_BIT == LCR_8_BIT,
        configured_by(regs, setup_sequence()).cntl & CNTL_TX_RX == CNTL_TX_RX,
{
    let s6 = setup_sequence();
    let s5 = s6.drop_last();
    let s4 = s5.drop_last();
    let s3 = s4.drop_last();
    let s2 = s3.drop_last();
    let s1 = s2.drop_last();
    let s0 = s1.drop_last();
    assert(s0.len() == 0);
    reveal_with_fuel(configured_by, 8);
    let aux = regs.aux_enables;
    let lcr = regs.lcr;
    let cntl = regs.cntl;
    assert((aux | 1) & 1 == 1) by (bit_vector);
    assert((lcr | 3) & 3 == 3) by (bit_vector);
    assert((cntl | 3) & 3 == 3) by (bit_vector);
    assert(configured_by(regs, s1).aux_enables == aux | 1);
    assert(configured_by(regs, s4).baud == 270);
    assert(configured_by(regs, s5).lcr == lcr | 3);
    assert(configured_by(regs, s6).cntl == cntl | 3);
}

/// On the wire every line feed follows a carriage return.
pub proof fn lemma_wire_line_feeds(text: Seq<u8>, i: int)
    requires
        0 <= i < wire_bytes(text).len(),
        wire_bytes(text)[i] == 10,
    ensures
        i >= 1,
        wire_bytes(text)[i - 1] == 13,
    decreases text.len(),
{
    if text.len() > 0 {
        let head = wire_bytes(text.drop_last());
        if i < head.len() {
            lemma_wire_line_feeds(text.drop_last(), i);
        }
    }
}

/// Text without a line feed goes out as it is.
pub proof fn lemma_wire_plain(text: Seq<u8>)
    requires
        forall|i: int| 0 <= i < text.len() ==> text[i] != 10,
    ensures
        wire_bytes(text) == text,
    decreases text.len(),
{
    if text.len() > 0 {
        lemma_wire_plain(text.drop_last());
        assert(text.drop_last().push(text.last()) =~= text);
        assert(wire_bytes(text) =~= text);
    }
}

} // verus!
