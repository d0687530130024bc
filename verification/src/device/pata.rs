//! The parallel ATA disk driver. Talking to the controller means waiting on
//! it; the decisions between the waits are kept here as state machines that
//! take what the controller reported and name the next thing to do.
use vstd::prelude::*;
use super::Port;

verus! {

pub const PATA_PORT_PRIMARY_BASE: u16 = 0x01F0;
pub const PATA_PORT_SECONDARY_BASE: u16 = 0x0170;
pub const PATA_DRIVEANDHEAD_LBA: u8 = 0xE0;
pub const PATA_DRIVEANDHEAD_SLAVE: u8 = 0x10;
pub const PATA_COMMAND_INFO: u8 = 0xEC;
pub const PATA_COMMAND_READ: u8 = 0x20;
pub const PATA_COMMAND_WRITE: u8 = 0x30;

/// Words in the identification block and in a sector.
pub const PATA_WORDS: usize = 256;

/// The status register.
#[derive(Clone, Copy, PartialEq, Eq, Structural)]
pub struct PataStatus(pub u8);

impl PataStatus {
    pub fn busy(&self) -> (r: bool)
        ensures
            r == (self.0 & 0x80 != 0),
    {
        self.0 & 0x80 != 0
    }

    pub fn ready(&self) -> (r: bool)
        ensures
            r == (self.0 & 0x40 != 0),
    {
        self.0 & 0x40 != 0
    }

    pub fn fault(&self) -> (r: bool)
        ensures
            r == (self.0 & 0x20 != 0),
    {
        self.0 & 0x20 != 0
    }

    pub fn seek_complete(&self) -> (r: bool)
        ensures
            r == (self.0 & 0x10 != 0),
    {
        self.0 & 0x10 != 0
    }

    pub fn request(&self) -> (r: bool)
        ensures
            r == (self.0 & 0x08 != 0),
    {
        self.0 & 0x08 != 0
    }

    pub fn correctable_data_error(&self) -> (r: bool)
        ensures
            r == (self.0 & 0x04 != 0),
    {
        self.0 & 0x04 != 0
    }

    pub fn index(&self) -> (r: bool)
        ensures
            r == (self.0 & 0x02 != 0),
    {
        self.0 & 0x02 != 0
    }

    pub fn error(&self) -> (r: bool)
        ensures
            r == (self.0 & 0x01 != 0),
    {
        self.0 & 0x01 != 0
    }
}

/// The registers of one ATA bus.
pub struct PataBus {
    pub data: Port,
    pub error: Port,
    pub sector_count: Port,
    pub sector_num: Port,
    pub cylinder_lsb: Port,
    pub cylinder_msb: Port,
    pub drive_head: Port,
    pub status: Port,
    pub command: Port,
    pub digital_int: Port,
    pub address: Port,
}

impl PataBus {
    /// The registers of the bus whose first port is `base`.
    pub fn new(base: u16) -> (r: Self)
        requires
            base + 0x207 <= u16::MAX,
        ensures
            r.data.port == base,
            r.error.port == base + 1,
            r.sector_count.port == base + 2,
            r.sector_num.port == base + 3,
            r.cylinder_lsb.port == base + 4,
            r.cylinder_msb.port == base + 5,
            r.drive_head.port == base + 6,
            r.status.port == base + 7,
            r.command.port == base + 7,
            r.digital_int.port == base + 0x206,
            r.address.port == base + 0x207,
    {
        Self {
            data: Port::new(base + 0x000),
            error: Port::new(base + 0x001),
            sector_count: Port::new(base + 0x002),
            sector_num: Port::new(base + 0x003),
            cylinder_lsb: Port::new(base + 0x004),
            cylinder_msb: Port::new(base + 0x005),
            drive_head: Port::new(base + 0x006),
            status: Port::new(base + 0x007),
            command: Port::new(base + 0x007),
            digital_int: Port::new(base + 0x206),
            address: Port::new(base + 0x207),
        }
    }
}

/// A 16-bit word with its two bytes exchanged.
pub open spec fn swap_bytes(w: u16) -> u16 {
    ((w % 256) * 256 + w / 256) as u16
}

proof fn lemma_swap_bytes(w: u16)
    ensures
        w << 8u16 | w >> 8u16 == swap_bytes(w),
{
    assert(w << 8u16 | w >> 8u16 == ((w % 256) * 256 + w / 256) as u16) by (bit_vector);
}

/// Exchanging the bytes of a word twice gives it back.
pub proof fn law_swap_bytes_twice(w: u16)
    ensures
        swap_bytes(swap_bytes(w)) == w,
{
    let lo = w % 256;
    let hi = w / 256;
    assert(w == hi * 256 + lo);
    assert(((lo * 256 + hi) % 256) == hi);
    assert(((lo * 256 + hi) / 256) == lo);
}

/// Words 10..20 hold the serial number, 27..47 the model number, 60..62 the
/// number of sectors.
pub open spec fn is_text_word(i: int) -> bool {
    (10 <= i < 20) || (27 <= i < 47)
}

/// The identification block a drive answers with: 256 words.
#[derive(Clone)]
pub struct HDDInformation {
    pub words: Vec<u16>,
}

impl HDDInformation {
    pub open spec fn wf(&self) -> bool {
        self.words@.len() == PATA_WORDS
    }

    /// The number of addressable sectors: the 32-bit value in words 60 and 61.
    pub open spec fn spec_total_sectors(&self) -> int {
        self.words@[60] + 65536 * self.words@[61]
    }

    /// All words zero.
    pub fn empty() -> (r: Self)
        ensures
            r.wf(),
            forall|i: int| 0 <= i < PATA_WORDS ==> r.words@[i] == 0,
    {
        let mut words: Vec<u16> = Vec::new();
        while words.len() < PATA_WORDS
            invariant
                words@.len() <= PATA_WORDS,
                forall|i: int| 0 <= i < words@.len() ==> words@[i] == 0,
            decreases PATA_WORDS - words@.len(),
        {
            words.push(0);
        }
        Self { words }
    }

    /// The block as the drive sent it, with the bytes of each word of the
    /// serial and model numbers exchanged so that they read in order.
    pub fn from_words(raw: &[u16]) -> (r: Self)
        requires
            raw@.len() == PATA_WORDS,
        ensures
            r.wf(),
            forall|i: int| 0 <= i < PATA_WORDS ==> #[trigger] r.words@[i] == if is_text_word(i) {
                swap_bytes(raw@[i])
            } else {
                raw@[i]
            },
    {
        let mut words: Vec<u16> = Vec::new();
        let mut i: usize = 0;
        while i < PATA_WORDS
            invariant
                raw@.len() == PATA_WORDS,
                i <= PATA_WORDS,
                words@.len() == i,
                forall|j: int| 0 <= j < i ==> #[trigger] words@[j] == if is_text_word(j) {
                    swap_bytes(raw@[j])
                } else {
                    raw@[j]
                },
            decreases PATA_WORDS - i,
        {
            let w = raw[i];
            if (10 <= i && i < 20) || (27 <= i && i < 47) {
                proof {
                    lemma_swap_bytes(w);
                }
                words.push(w << 8 | w >> 8);
            } else {
                words.push(w);
            }
            i = i + 1;
        }
        Self { words }
    }

    pub fn total_sectors(&self) -> (r: u32)
        requires
            self.wf(),
        ensures
            r == self.spec_total_sectors(),
    {
        self.words[60] as u32 + 65536 * self.words[61] as u32
    }

    /// The ten words of the serial number.
    pub fn serial_number(&self) -> (r: Vec<u16>)
        requires
            self.wf(),
        ensures
            r@ == self.words@.subrange(10, 20),
    {
        words_between(&self.words, 10, 20)
    }

    /// The twenty words of the model number.
    pub fn model_number(&self) -> (r: Vec<u16>)
        requires
            self.wf(),
        ensures
            r@ == self.words@.subrange(27, 47),
    {
        words_between(&self.words, 27, 47)
    }

    /// The serial number as its 20 bytes in memory order.
    pub fn serial_number_bytes(&self) -> (r: Vec<u8>)
        requires
            self.wf(),
        ensures
            r@ == word_bytes(self.words@.subrange(10, 20)),
    {
        bytes_of_words(&self.words, 10, 20)
    }

    /// The model number as its 40 bytes in memory order.
    pub fn model_number_bytes(&self) -> (r: Vec<u8>)
        requires
            self.wf(),
        ensures
            r@ == word_bytes(self.words@.subrange(27, 47)),
    {
        bytes_of_words(&self.words, 27, 47)
    }
}

/// Words `from..to` of `words`.
fn words_between(words: &Vec<u16>, from: usize, to: usize) -> (r: Vec<u16>)
    requires
        from <= to <= words@.len(),
    ensures
        r@ == words@.subrange(from as int, to as int),
{
    let mut r: Vec<u16> = Vec::new();
    let mut i = from;
    while i < to
        invariant
            from <= i <= to <= words@.len(),
            r@ == words@.subrange(from as int, i as int),
        decreases to - i,
    {
        r.push(words[i]);
        i = i + 1;
        proof {
            assert(r@ =~= words@.subrange(from as int, i as int));
        }
    }
    r
}

/// Words laid out in memory, low byte first.
pub open spec fn word_bytes(words: Seq<u16>) -> Seq<u8> {
    Seq::new(2 * words.len(), |k: int| if k % 2 == 0 { (words[k / 2] % 256) as u8 } else { (words[k / 2] / 256) as u8 })
}

fn bytes_of_words(words: &Vec<u16>, from: usize, to: usize) -> (r: Vec<u8>)
    requires
        from <= to <= words@.len(),
    ensures
        r@ == word_bytes(words@.subrange(from as int, to as int)),
{
    let ghost ws = words@.subrange(from as int, to as int);
    let mut r: Vec<u8> = Vec::new();
    let mut i = from;
    while i < to
        invariant
            from <= i <= to <= words@.len(),
            ws == words@.subrange(from as int, to as int),
            r@.len() == 2 * (i - from),
            forall|k: int| 0 <= k < r@.len() ==> #[trigger] r@[k] == word_bytes(ws)[k],
        decreases to - i,
    {
        let w = words[i];
        r.push((w % 256) as u8);
        r.push((w / 256) as u8);
        i = i + 1;
    }
    proof {
        assert(r@ =~= word_bytes(ws));
    }
    r
}

/// Interrupt flags of the two buses, set by the interrupt handler.
pub struct Pata {
    pub primary_interrupt: bool,
    pub secondary_interrupt: bool,
}

impl Pata {
    pub fn new() -> (r: Self)
        ensures
            !r.primary_interrupt,
            !r.secondary_interrupt,
    {
        Self { primary_interrupt: false, secondary_interrupt: false }
    }

    pub fn set_interrupt_flag(&mut self, primary: bool, flag: bool)
        ensures
            primary ==> final(self).primary_interrupt == flag && final(self).secondary_interrupt == old(self).secondary_interrupt,
            !primary ==> final(self).secondary_interrupt == flag && final(self).primary_interrupt == old(self).primary_interrupt,
    {
        if primary {
            self.primary_interrupt = flag;
        } else {
            self.secondary_interrupt = flag;
        }
    }

    /// The test a wait for the interrupt of a bus polls: the flag of the
    /// primary bus equals `primary`, or that of the secondary bus equals
    /// `!primary`.
    pub fn interrupt_arrived(&self, primary: bool) -> (r: bool)
        ensures
            r == (primary == self.primary_interrupt || !primary == self.secondary_interrupt),
    {
        primary == self.primary_interrupt || !primary == self.secondary_interrupt
    }

    /// Starts identifying drive `index`: 0 and 1 are the master and slave of
    /// the primary bus, 2 and 3 those of the secondary one.
    pub fn device(&mut self, index: u8) -> (r: (Probe, PataAction))
        ensures
            r.0.primary == (index / 2 == 0),
            r.0.master == (index % 2 == 0),
            r.0.phase == ProbePhase::NotBusy,
            r.1 == PataAction::WaitNotBusy,
            r.0.info.wf(),
            *final(self) == *old(self),
    {
        let primary = index / 2 == 0;
        let master = index % 2 == 0;
        (Probe { primary, master, phase: ProbePhase::NotBusy, info: HDDInformation::empty() }, PataAction::WaitNotBusy)
    }
}

/// What the driver asks of the controller next.
#[derive(Clone, Copy, PartialEq, Eq, Structural)]
pub enum PataAction {
    /// Poll the status until the busy bit clears, or time out.
    WaitNotBusy,
    /// Poll the status until the ready bit sets, or time out.
    WaitReady,
    /// Wait for the bus's interrupt, or time out; then clear its flag.
    WaitInterrupt,
    /// Write the drive/head register.
    SelectDrive(u8),
    /// Write the sector count, the LBA bytes and the drive/head register.
    SetRegisters { sector_count: u8, sector_num: u8, cylinder_lsb: u8, cylinder_msb: u8, drive_head: u8 },
    /// Clear the interrupt flag if asked, then write the command register.
    Command { clear_interrupt: bool, command: u8 },
    /// Read the status register; with `settle`, read it once more first.
    ReadStatus { settle: bool },
    /// Sleep a millisecond.
    Sleep,
    /// Wait 400 microseconds, then read 256 words into block `block`.
    ReadData { block: usize },
    /// Read the 256 words of the identification block.
    ReadInfo,
    /// Clear the interrupt flag, then write the 256 words of block `block`.
    WriteData { block: usize },
    /// Wait 400 microseconds.
    Delay,
    /// The operation is over: it succeeded with `blocks` blocks moved, or
    /// failed after moving `blocks` blocks.
    Finish { ok: bool, blocks: usize },
}

/// What the controller reported for the last action.
pub enum PataEvent {
    /// The action was carried out.
    Completed,
    /// A wait ended: `true` when its condition came, `false` on time-out.
    Waited(bool),
    /// The status register read.
    Status(u8),
    /// The identification block read.
    Words(Vec<u16>),
}

/// Where a block transfer stands.
#[derive(Clone, Copy, PartialEq, Eq, Structural)]
pub enum PataPhase {
    NotBusy,
    Registers,
    Ready,
    Commanded,
    Polling,
    Sleeping,
    BlockStatus,
    Interrupt,
    Data,
    Written,
    Delaying,
    Finished { ok: bool, blocks: usize },
}

/// A read or write of `len` blocks at sector `address`.
#[derive(Clone, Copy, PartialEq, Eq, Structural)]
pub struct Transfer {
    pub write: bool,
    pub master: bool,
    pub address: u32,
    pub len: usize,
    pub count: usize,
    pub phase: PataPhase,
}

proof fn lemma_registers(address: u32, len: usize)
    ensures
        address as u8 == address % 256,
        (address >> 8u32) as u8 == (address / 256) % 256,
        (address >> 16u32) as u8 == (address / 65536) % 256,
        ((address >> 24u32) & 0x0Fu32) as u8 == (address / 16777216) % 16,
        (address / 16777216) % 16 < 16,
        len as u8 == len % 256,
{
    assert(address as u8 == address % 256
        && (address >> 8u32) as u8 == (address / 256) % 256
        && (address >> 16u32) as u8 == (address / 65536) % 256
        && ((address >> 24u32) & 0x0Fu32) as u8 == (address / 16777216) % 16) by (bit_vector);
    assert(len as u8 == len % 256) by (bit_vector);
}

proof fn lemma_or_low_nibble(d: u8, n: u8)
    requires
        d == 0xE0 || d == 0xF0,
        n < 16,
    ensures
        d | n == d + n,
{
    assert((d == 0xE0u8 || d == 0xF0u8) && n < 16 ==> d | n == d + n) by (bit_vector);
}

/// The registers that address `len` sectors at `address`; the drive/head
/// register takes the LBA mode bits, the drive bit and address bits 24..28.
pub open spec fn transfer_registers(t: Transfer) -> PataAction {
    PataAction::SetRegisters {
        sector_count: (t.len % 256) as u8,
        sector_num: (t.address % 256) as u8,
        cylinder_lsb: ((t.address / 256) % 256) as u8,
        cylinder_msb: ((t.address / 65536) % 256) as u8,
        drive_head: ((if t.master { 0xE0int } else { 0xF0int }) + (t.address / 16777216) % 16) as u8,
    }
}

/// The action a transfer in its phase is waiting on.
pub open spec fn phase_action(t: Transfer) -> PataAction {
    match t.phase {
        PataPhase::NotBusy => PataAction::WaitNotBusy,
        PataPhase::Registers => transfer_registers(t),
        PataPhase::Ready => PataAction::WaitReady,
        PataPhase::Commanded => transfer_command(t),
        PataPhase::Polling => PataAction::ReadStatus { settle: false },
        PataPhase::Sleeping => PataAction::Sleep,
        PataPhase::BlockStatus => PataAction::ReadStatus { settle: !t.write },
        PataPhase::Interrupt => PataAction::WaitInterrupt,
        PataPhase::Data => PataAction::ReadData { block: t.count },
        PataPhase::Written => PataAction::WriteData { block: t.count },
        PataPhase::Delaying => PataAction::Delay,
        PataPhase::Finished { ok, blocks } => PataAction::Finish { ok, blocks },
    }
}

pub open spec fn transfer_command(t: Transfer) -> PataAction {
    if t.write {
        PataAction::Command { clear_interrupt: false, command: PATA_COMMAND_WRITE }
    } else {
        PataAction::Command { clear_interrupt: true, command: PATA_COMMAND_READ }
    }
}

/// Moves to `phase` and asks for what it waits on.
pub open spec fn enter(t: Transfer, phase: PataPhase) -> (Transfer, PataAction) {
    let t2 = Transfer { phase, ..t };
    (t2, phase_action(t2))
}

/// A block transfer's next step. The read asks for the status before each
/// block, waits for the interrupt when no data is requested yet, and reads
/// the block; the write waits for the first data request, then writes each
/// block and checks the status after it. An event that does not answer the
/// pending action leaves the transfer as it is and asks again.
pub open spec fn transfer_step(t: Transfer, ev: PataEvent) -> (Transfer, PataAction) {
    match (t.phase, ev) {
        (PataPhase::NotBusy, PataEvent::Waited(ok)) =>
            if ok { enter(t, PataPhase::Registers) } else { enter(t, PataPhase::Finished { ok: false, blocks: 0 }) },
        (PataPhase::Registers, PataEvent::Completed) => enter(t, PataPhase::Ready),
        (PataPhase::Ready, PataEvent::Waited(ok)) =>
            if ok { enter(t, PataPhase::Commanded) } else { enter(t, PataPhase::Finished { ok: false, blocks: 0 }) },
        (PataPhase::Commanded, PataEvent::Completed) =>
            if t.write {
                enter(t, PataPhase::Polling)
            } else if t.count == t.len {
                enter(t, PataPhase::Finished { ok: true, blocks: t.count })
            } else {
                enter(t, PataPhase::BlockStatus)
            },
        (PataPhase::Polling, PataEvent::Status(s)) =>
            if s & 0x01 != 0 {
                enter(t, PataPhase::Finished { ok: false, blocks: 0 })
            } else if s & 0x08 != 0 {
                if t.len == 0 { enter(t, PataPhase::Finished { ok: true, blocks: 0 }) } else { enter(t, PataPhase::Written) }
            } else {
                enter(t, PataPhase::Sleeping)
            },
        (PataPhase::Sleeping, PataEvent::Completed) => enter(t, PataPhase::Polling),
        (PataPhase::Written, PataEvent::Completed) =>
            enter(Transfer { count: (t.count + 1) as usize, ..t }, PataPhase::BlockStatus),
        (PataPhase::BlockStatus, PataEvent::Status(s)) =>
            if s & 0x01 != 0 {
                enter(t, PataPhase::Finished { ok: false, blocks: t.count })
            } else if s & 0x08 == 0 {
                enter(t, PataPhase::Interrupt)
            } else if t.write {
                enter(t, PataPhase::Delaying)
            } else {
                enter(t, PataPhase::Data)
            },
        (PataPhase::Interrupt, PataEvent::Waited(ok)) =>
            if !ok {
                enter(t, PataPhase::Finished { ok: false, blocks: t.count })
            } else if t.write {
                enter(t, PataPhase::Delaying)
            } else {
                enter(t, PataPhase::Data)
            },
        (PataPhase::Data, PataEvent::Completed) => {
            let t2 = Transfer { count: (t.count + 1) as usize, ..t };
            if t2.count == t2.len { enter(t2, PataPhase::Finished { ok: true, blocks: t2.count }) } else { enter(t2, PataPhase::BlockStatus) }
        },
        (PataPhase::Delaying, PataEvent::Completed) =>
            if t.count == t.len { enter(t, PataPhase::Finished { ok: true, blocks: t.count }) } else { enter(t, PataPhase::Written) },
        _ => (t, phase_action(t)),
    }
}

impl Transfer {
    /// The counters and phases a transfer can be in.
    pub open spec fn wf(&self) -> bool {
        &&& self.count <= self.len
        &&& (self.phase is Data || self.phase is Written) ==> self.count < self.len
        &&& (!self.write && (self.phase is BlockStatus || self.phase is Interrupt)) ==> self.count < self.len
        &&& !self.write ==> !(self.phase is Polling || self.phase is Sleeping || self.phase is Written || self.phase is Delaying)
        &&& self.write ==> !(self.phase is Data)
        &&& (self.phase is NotBusy || self.phase is Registers || self.phase is Ready || self.phase is Commanded
            || self.phase is Polling || self.phase is Sleeping) ==> self.count == 0
        &&& (self.phase matches PataPhase::Finished { ok: true, blocks: n } ==> n == self.len)
        &&& (self.phase matches PataPhase::Finished { ok: false, blocks: n } ==> n <= self.count)
    }

    /// Answers the pending action with what the controller reported and
    /// names the next action.
    pub fn step(&mut self, ev: PataEvent) -> (r: PataAction)
        requires
            old(self).wf(),
        ensures
            final(self).wf(),
            (*final(self), r) == transfer_step(*old(self), ev),
            final(self).count >= old(self).count,
            r matches PataAction::ReadData { block } ==> block == final(self).count && block < final(self).len && !final(self).write,
            r matches PataAction::WriteData { block } ==> block == final(self).count && block < final(self).len && final(self).write,
            r matches PataAction::Finish { ok, blocks } ==> (ok ==> blocks == final(self).len) && (!ok ==> blocks <= final(self).count),
    {
        let next = match (self.phase, ev) {
            (PataPhase::NotBusy, PataEvent::Waited(ok)) =>
                if ok { PataPhase::Registers } else { PataPhase::Finished { ok: false, blocks: 0 } },
            (PataPhase::Registers, PataEvent::Completed) => PataPhase::Ready,
            (PataPhase::Ready, PataEvent::Waited(ok)) =>
                if ok { PataPhase::Commanded } else { PataPhase::Finished { ok: false, blocks: 0 } },
            (PataPhase::Commanded, PataEvent::Completed) =>
                if self.write {
                    PataPhase::Polling
                } else if self.count == self.len {
                    PataPhase::Finished { ok: true, blocks: self.count }
                } else {
                    PataPhase::BlockStatus
                },
            (PataPhase::Polling, PataEvent::Status(s)) => {
                let status = PataStatus(s);
                if status.error() {
                    PataPhase::Finished { ok: false, blocks: 0 }
                } else if status.request() {
                    if self.len == 0 { PataPhase::Finished { ok: true, blocks: 0 } } else { PataPhase::Written }
                } else {
                    PataPhase::Sleeping
                }
            },
            (PataPhase::Sleeping, PataEvent::Completed) => PataPhase::Polling,
            (PataPhase::Written, PataEvent::Completed) => {
                self.count = self.count + 1;
                PataPhase::BlockStatus
            },
            (PataPhase::BlockStatus, PataEvent::Status(s)) => {
                let status = PataStatus(s);
                if status.error() {
                    PataPhase::Finished { ok: false, blocks: self.count }
                } else if !status.request() {
                    PataPhase::Interrupt
                } else if self.write {
                    PataPhase::Delaying
                } else {
                    PataPhase::Data
                }
            },
            (PataPhase::Interrupt, PataEvent::Waited(ok)) =>
                if !ok {
                    PataPhase::Finished { ok: false, blocks: self.count }
                } else if self.write {
                    PataPhase::Delaying
                } else {
                    PataPhase::Data
                },
            (PataPhase::Data, PataEvent::Completed) => {
                self.count = self.count + 1;
                if self.count == self.len { PataPhase::Finished { ok: true, blocks: self.count } } else { PataPhase::BlockStatus }
            },
            (PataPhase::Delaying, PataEvent::Completed) =>
                if self.count == self.len { PataPhase::Finished { ok: true, blocks: self.count } } else { PataPhase::Written },
            _ => self.phase,
        };
        self.phase = next;
        self.action()
    }

    /// The action the transfer is waiting on.
    pub fn action(&self) -> (r: PataAction)
        ensures
            r == phase_action(*self),
    {
        match self.phase {
            PataPhase::NotBusy => PataAction::WaitNotBusy,
            PataPhase::Registers => {
                let drive: u8 = if self.master { 0xE0 } else { 0xF0 };
                let nibble = ((self.address >> 24) & 0x0F) as u8;
                proof {
                    lemma_registers(self.address, self.len);
                    lemma_or_low_nibble(drive, nibble);
                }
                PataAction::SetRegisters {
                    sector_count: self.len as u8,
                    sector_num: self.address as u8,
                    cylinder_lsb: (self.address >> 8) as u8,
                    cylinder_msb: (self.address >> 16) as u8,
                    drive_head: drive | nibble,
                }
            },
            PataPhase::Ready => PataAction::WaitReady,
            PataPhase::Commanded => if self.write {
                PataAction::Command { clear_interrupt: false, command: PATA_COMMAND_WRITE }
            } else {
                PataAction::Command { clear_interrupt: true, command: PATA_COMMAND_READ }
            },
            PataPhase::Polling => PataAction::ReadStatus { settle: false },
            PataPhase::Sleeping => PataAction::Sleep,
            PataPhase::BlockStatus => PataAction::ReadStatus { settle: !self.write },
            PataPhase::Interrupt => PataAction::WaitInterrupt,
            PataPhase::Data => PataAction::ReadData { block: self.count },
            PataPhase::Written => PataAction::WriteData { block: self.count },
            PataPhase::Delaying => PataAction::Delay,
            PataPhase::Finished { ok, blocks } => PataAction::Finish { ok, blocks },
        }
    }
}

/// A drive on one of the two buses.
#[derive(Clone)]
pub struct HDD {
    pub primary: bool,
    pub master: bool,
    pub can_write: bool,
    pub info: HDDInformation,
}

impl HDD {
    pub fn info(&self) -> (r: HDDInformation)
        ensures
            r.words@ == self.info.words@,
    {
        HDDInformation { words: self.info.words.clone() }
    }

    /// Number of sectors on the drive.
    pub fn max_addr(&self) -> (r: u32)
        requires
            self.info.wf(),
        ensures
            r == self.info.spec_total_sectors(),
    {
        self.info.total_sectors()
    }

    /// Starts reading `len` sectors at `address`: refused, with nothing read,
    /// unless the last of them lies below the drive's sector count.
    pub fn read_block(&self, address: u32, len: usize) -> (r: (Transfer, PataAction))
        requires
            self.info.wf(),
            address + len <= u32::MAX,
        ensures
            r.0.wf(),
            r.0.write == false,
            r.0.master == self.master,
            r.0.address == address,
            r.0.len == len,
            r.0.count == 0,
            self.info.spec_total_sectors() <= address + len ==> r.0.phase == (PataPhase::Finished { ok: false, blocks: 0 }),
            self.info.spec_total_sectors() > address + len ==> r.0.phase == PataPhase::NotBusy,
            r.1 == phase_action(r.0),
    {
        let total = self.info.total_sectors();
        let phase = if total <= address + len as u32 { PataPhase::Finished { ok: false, blocks: 0 } } else { PataPhase::NotBusy };
        let t = Transfer { write: false, master: self.master, address, len, count: 0, phase };
        (t, t.action())
    }

    /// Starts writing `len` sectors at `address`: refused, with nothing
    /// written, when the drive is read-only or the range does not lie below
    /// the drive's sector count.
    pub fn write_block(&self, address: u32, len: usize) -> (r: (Transfer, PataAction))
        requires
            self.info.wf(),
            address + len <= u32::MAX,
        ensures
            r.0.wf(),
            r.0.write == true,
            r.0.master == self.master,
            r.0.address == address,
            r.0.len == len,
            r.0.count == 0,
            (!self.can_write || self.info.spec_total_sectors() <= address + len) ==> r.0.phase == (PataPhase::Finished { ok: false, blocks: 0 }),
            (self.can_write && self.info.spec_total_sectors() > address + len) ==> r.0.phase == PataPhase::NotBusy,
            r.1 == phase_action(r.0),
    {
        let total = self.info.total_sectors();
        let phase = if !self.can_write || total <= address + len as u32 {
            PataPhase::Finished { ok: false, blocks: 0 }
        } else {
            PataPhase::NotBusy
        };
        let t = Transfer { write: true, master: self.master, address, len, count: 0, phase };
        (t, t.action())
    }
}

/// Where the identification of a drive stands.
#[derive(Clone, Copy, PartialEq, Eq, Structural)]
pub enum ProbePhase {
    NotBusy,
    Selected,
    Ready,
    Commanded,
    Interrupt,
    Status,
    Info,
    Finished(bool),
}

/// Identification of a drive: select it, send IDENTIFY, wait for the
/// interrupt, check the status and read the answer.
pub struct Probe {
    pub primary: bool,
    pub master: bool,
    pub phase: ProbePhase,
    pub info: HDDInformation,
}

/// The drive/head value that selects the master or the slave in LBA mode.
pub open spec fn probe_drive(master: bool) -> u8 {
    if master { PATA_DRIVEANDHEAD_LBA } else { (PATA_DRIVEANDHEAD_LBA + PATA_DRIVEANDHEAD_SLAVE) as u8 }
}

pub open spec fn probe_action(phase: ProbePhase, master: bool) -> PataAction {
    match phase {
        ProbePhase::NotBusy => PataAction::WaitNotBusy,
        ProbePhase::Selected => PataAction::SelectDrive(probe_drive(master)),
        ProbePhase::Ready => PataAction::WaitReady,
        ProbePhase::Commanded => PataAction::Command { clear_interrupt: true, command: PATA_COMMAND_INFO },
        ProbePhase::Interrupt => PataAction::WaitInterrupt,
        ProbePhase::Status => PataAction::ReadStatus { settle: false },
        ProbePhase::Info => PataAction::ReadInfo,
        ProbePhase::Finished(found) => PataAction::Finish { ok: found, blocks: 0 },
    }
}

/// The next phase of an identification; `None` when the event does not
/// answer the pending action.
pub open spec fn probe_next(phase: ProbePhase, ev: PataEvent) -> Option<ProbePhase> {
    match (phase, ev) {
        (ProbePhase::NotBusy, PataEvent::Waited(ok)) => Some(if ok { ProbePhase::Selected } else { ProbePhase::Finished(false) }),
        (ProbePhase::Selected, PataEvent::Completed) => Some(ProbePhase::Ready),
        (ProbePhase::Ready, PataEvent::Waited(ok)) => Some(if ok { ProbePhase::Commanded } else { ProbePhase::Finished(false) }),
        (ProbePhase::Commanded, PataEvent::Completed) => Some(ProbePhase::Interrupt),
        (ProbePhase::Interrupt, PataEvent::Waited(ok)) => Some(if ok { ProbePhase::Status } else { ProbePhase::Finished(false) }),
        (ProbePhase::Status, PataEvent::Status(s)) => Some(if s & 0x01 != 0 { ProbePhase::Finished(false) } else { ProbePhase::Info }),
        (ProbePhase::Info, PataEvent::Words(w)) => if w@.len() == PATA_WORDS { Some(ProbePhase::Finished(true)) } else { None },
        _ => None,
    }
}

/// The event hands over the identification block the probe is waiting for.
pub open spec fn answers_info(phase: ProbePhase, ev: PataEvent) -> bool {
    phase == ProbePhase::Info && (ev matches PataEvent::Words(w) && w@.len() == PATA_WORDS)
}

impl Probe {
    /// Answers the pending action and names the next one. The identification
    /// block the drive sends is kept with the bytes of its text words
    /// exchanged.
    pub fn step(&mut self, ev: PataEvent) -> (r: PataAction)
        ensures
            final(self).primary == old(self).primary,
            final(self).master == old(self).master,
            final(self).phase == match probe_next(old(self).phase, ev) { Some(p) => p, None => old(self).phase },
            r == probe_action(final(self).phase, final(self).master),
            answers_info(old(self).phase, ev) ==> ({
                let w = ev->Words_0;
                &&& final(self).info.wf()
                &&& forall|i: int| 0 <= i < PATA_WORDS ==> #[trigger] final(self).info.words@[i] == if is_text_word(i) {
                    swap_bytes(w@[i])
                } else {
                    w@[i]
                }
            }),
            !answers_info(old(self).phase, ev)
                ==> final(self).info.words@ == old(self).info.words@,
    {
        let next = match (self.phase, ev) {
            (ProbePhase::NotBusy, PataEvent::Waited(ok)) => if ok { ProbePhase::Selected } else { ProbePhase::Finished(false) },
            (ProbePhase::Selected, PataEvent::Completed) => ProbePhase::Ready,
            (ProbePhase::Ready, PataEvent::Waited(ok)) => if ok { ProbePhase::Commanded } else { ProbePhase::Finished(false) },
            (ProbePhase::Commanded, PataEvent::Completed) => ProbePhase::Interrupt,
            (ProbePhase::Interrupt, PataEvent::Waited(ok)) => if ok { ProbePhase::Status } else { ProbePhase::Finished(false) },
            (ProbePhase::Status, PataEvent::Status(s)) => {
                if PataStatus(s).error() { ProbePhase::Finished(false) } else { ProbePhase::Info }
            },
            (ProbePhase::Info, PataEvent::Words(w)) => {
                if w.len() == PATA_WORDS {
                    self.info = HDDInformation::from_words(w.as_slice());
                    ProbePhase::Finished(true)
                } else {
                    ProbePhase::Info
                }
            },
            _ => self.phase,
        };
        self.phase = next;
        proof {
            assert(0xE0u8 | 0u8 == 0xE0u8 && 0xE0u8 | 0x10u8 == 0xF0u8) by (bit_vector);
        }
        match self.phase {
            ProbePhase::NotBusy => PataAction::WaitNotBusy,
            ProbePhase::Selected => PataAction::SelectDrive(
                PATA_DRIVEANDHEAD_LBA | if self.master { 0 } else { PATA_DRIVEANDHEAD_SLAVE },
            ),
            ProbePhase::Ready => PataAction::WaitReady,
            ProbePhase::Commanded => PataAction::Command { clear_interrupt: true, command: PATA_COMMAND_INFO },
            ProbePhase::Interrupt => PataAction::WaitInterrupt,
            ProbePhase::Status => PataAction::ReadStatus { settle: false },
            ProbePhase::Info => PataAction::ReadInfo,
            ProbePhase::Finished(found) => PataAction::Finish { ok: found, blocks: 0 },
        }
    }

    /// The drive, once identification has succeeded.
    pub fn hdd(&self) -> (r: Option<HDD>)
        ensures
            self.phase == ProbePhase::Finished(true) ==> (r matches Some(h) && h.primary == self.primary
                && h.master == self.master && h.can_write && h.info.words@ == self.info.words@),
            self.phase != ProbePhase::Finished(true) ==> r is None,
    {
        if self.phase == ProbePhase::Finished(true) {
            Some(HDD { primary: self.primary, master: self.master, can_write: true, info: HDDInformation { words: self.info.words.clone() } })
        } else {
            None
        }
    }
}

} // verus!
