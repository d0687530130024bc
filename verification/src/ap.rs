//! Waking the application processors: the trampoline parameters, the INIT
//! and STARTUP inter-processor interrupts, and the wait for the cores to
//! report in, as a state machine the caller drives.
use vstd::prelude::*;

verus! {

/// The INIT interrupt, to every other processor.
pub const IPI_INIT: u32 = 0x000C_4500;
/// The STARTUP interrupt, to every other processor, vector 8 (0x8000).
pub const IPI_STARTUP: u32 = 0x000C_4608;
/// The delivery status bit of the interrupt command register.
pub const ICR_PENDING: u32 = 0x0000_1000;

/// What the bootstrap processor does next.
#[derive(Clone, Copy, PartialEq, Eq, Structural)]
pub enum ApAction {
    /// Store the page table, the entry point, the stack top and the stack
    /// size in sixteenths at 0x8004, 0x8008, 0x8010 and 0x8014.
    WriteTrampoline { stack_top: u32, stack_part: u32 },
    /// Set the APIC software enable bit (0x100) of the spurious vector.
    EnableApic,
    /// Write the low word of the interrupt command register, the high 0.
    SendIpi(u32),
    /// Busy-wait this many microseconds.
    Wait(u64),
    /// Read the interrupt command register.
    ReadIcr,
    /// Read how many cores have woken.
    ReadCoreCount,
    /// Done: the number of cores that woke.
    Finish(usize),
}

/// What came back from the last action.
#[derive(Clone, Copy, PartialEq, Eq, Structural)]
pub enum ApEvent {
    Completed,
    Icr(u32),
    CoreCount(u32),
}

#[derive(Clone, Copy, PartialEq, Eq, Structural)]
pub enum ApPhase {
    Trampoline,
    Apic,
    Init,
    InitWait,
    InitCheck,
    Startup1,
    Startup1Wait,
    Startup1Check,
    Startup2,
    Startup2Wait,
    Startup2Check,
    Count,
    CountWait,
    Finished(usize),
}

/// The wake-up of `num_ap` processors.
#[derive(Clone, Copy, PartialEq, Eq, Structural)]
pub struct ApBoot {
    pub num_ap: usize,
    pub stack_top: u32,
    pub stack_part: u32,
    pub phase: ApPhase,
}

pub open spec fn ap_action(b: ApBoot) -> ApAction {
    match b.phase {
        ApPhase::Trampoline => ApAction::WriteTrampoline { stack_top: b.stack_top, stack_part: b.stack_part },
        ApPhase::Apic => ApAction::EnableApic,
        ApPhase::Init => ApAction::SendIpi(IPI_INIT),
        ApPhase::InitWait => ApAction::Wait(10000),
        ApPhase::InitCheck => ApAction::ReadIcr,
        ApPhase::Startup1 => ApAction::SendIpi(IPI_STARTUP),
        ApPhase::Startup1Wait => ApAction::Wait(200),
        ApPhase::Startup1Check => ApAction::ReadIcr,
        ApPhase::Startup2 => ApAction::SendIpi(IPI_STARTUP),
        ApPhase::Startup2Wait => ApAction::Wait(200),
        ApPhase::Startup2Check => ApAction::ReadIcr,
        ApPhase::Count => ApAction::ReadCoreCount,
        ApPhase::CountWait => ApAction::Wait(50000),
        ApPhase::Finished(n) => ApAction::Finish(n),
    }
}

/// The next phase: INIT, a 10 ms wait, then two STARTUPs each followed by a
/// 200 us wait; a still pending interrupt skips what is left of the
/// sequence. Then the core count is polled every 50 ms until all but the
/// bootstrap processor have woken. An event that does not answer the
/// pending action changes nothing.
pub open spec fn ap_next(b: ApBoot, ev: ApEvent) -> ApPhase {
    match (b.phase, ev) {
        (ApPhase::Trampoline, ApEvent::Completed) => ApPhase::Apic,
        (ApPhase::Apic, ApEvent::Completed) => ApPhase::Init,
        (ApPhase::Init, ApEvent::Completed) => ApPhase::InitWait,
        (ApPhase::InitWait, ApEvent::Completed) => ApPhase::InitCheck,
        (ApPhase::InitCheck, ApEvent::Icr(v)) => if v & ICR_PENDING != 0 { ApPhase::Count } else { ApPhase::Startup1 },
        (ApPhase::Startup1, ApEvent::Completed) => ApPhase::Startup1Wait,
        (ApPhase::Startup1Wait, ApEvent::Completed) => ApPhase::Startup1Check,
        (ApPhase::Startup1Check, ApEvent::Icr(v)) => if v & ICR_PENDING != 0 { ApPhase::Count } else { ApPhase::Startup2 },
        (ApPhase::Startup2, ApEvent::Completed) => ApPhase::Startup2Wait,
        (ApPhase::Startup2Wait, ApEvent::Completed) => ApPhase::Startup2Check,
        (ApPhase::Startup2Check, ApEvent::Icr(_)) => ApPhase::Count,
        (ApPhase::Count, ApEvent::CoreCount(n)) =>
            if n < b.num_ap - 1 { ApPhase::CountWait } else { ApPhase::Finished(n as usize) },
        (ApPhase::CountWait, ApEvent::Completed) => ApPhase::Count,
        _ => b.phase,
    }
}

/// Starts the wake-up of `num_ap` processors whose stacks take
/// `stack_size` bytes from `stack_start`.
pub fn init_ap(num_ap: usize, stack_start: u64, stack_size: u64) -> (r: (ApBoot, ApAction))
    requires
        1 <= num_ap <= u32::MAX,
        stack_start + stack_size <= u64::MAX,
    ensures
        r.0.num_ap == num_ap,
        r.0.stack_top == (stack_start + stack_size) % 0x1_0000_0000,
        r.0.stack_part == (stack_size % 0x1_0000_0000) / 16,
        r.0.phase == ApPhase::Trampoline,
        r.0.wf(),
        r.1 == ap_action(r.0),
{
    let top = stack_start + stack_size;
    proof {
        assert(top as u32 == top % 0x1_0000_0000 && stack_size as u32 == stack_size % 0x1_0000_0000) by (bit_vector);
    }
    let b = ApBoot { num_ap, stack_top: top as u32, stack_part: stack_size as u32 / 16, phase: ApPhase::Trampoline };
    (b, b.action())
}

impl ApBoot {
    pub fn action(&self) -> (r: ApAction)
        ensures
            r == ap_action(*self),
    {
        match self.phase {
            ApPhase::Trampoline => ApAction::WriteTrampoline { stack_top: self.stack_top, stack_part: self.stack_part },
            ApPhase::Apic => ApAction::EnableApic,
            ApPhase::Init => ApAction::SendIpi(IPI_INIT),
            ApPhase::InitWait => ApAction::Wait(10000),
            ApPhase::InitCheck => ApAction::ReadIcr,
            ApPhase::Startup1 => ApAction::SendIpi(IPI_STARTUP),
            ApPhase::Startup1Wait => ApAction::Wait(200),
            ApPhase::Startup1Check => ApAction::ReadIcr,
            ApPhase::Startup2 => ApAction::SendIpi(IPI_STARTUP),
            ApPhase::Startup2Wait => ApAction::Wait(200),
            ApPhase::Startup2Check => ApAction::ReadIcr,
            ApPhase::Count => ApAction::ReadCoreCount,
            ApPhase::CountWait => ApAction::Wait(50000),
            ApPhase::Finished(n) => ApAction::Finish(n),
        }
    }

    /// The bounds the wake-up keeps: at least one processor, and a finished
    /// count that covers all but the bootstrap one.
    pub open spec fn wf(&self) -> bool {
        &&& 1 <= self.num_ap <= u32::MAX
        &&& self.phase matches ApPhase::Finished(n) ==> n + 1 >= self.num_ap
    }

    /// Takes what the last action gave and names the next one.
    pub fn step(&mut self, ev: ApEvent) -> (r: ApAction)
        requires
            old(self).wf(),
        ensures
            final(self).wf(),
            *final(self) == (ApBoot { phase: ap_next(*old(self), ev), ..*old(self) }),
            r == ap_action(*final(self)),
            r matches ApAction::Finish(n) ==> n + 1 >= old(self).num_ap,
    {
        let next = match (self.phase, ev) {
            (ApPhase::Trampoline, ApEvent::Completed) => ApPhase::Apic,
            (ApPhase::Apic, ApEvent::Completed) => ApPhase::Init,
            (ApPhase::Init, ApEvent::Completed) => ApPhase::InitWait,
            (ApPhase::InitWait, ApEvent::Completed) => ApPhase::InitCheck,
            (ApPhase::InitCheck, ApEvent::Icr(v)) => if v & ICR_PENDING != 0 { ApPhase::Count } else { ApPhase::Startup1 },
            (ApPhase::Startup1, ApEvent::Completed) => ApPhase::Startup1Wait,
            (ApPhase::Startup1Wait, ApEvent::Completed) => ApPhase::Startup1Check,
            (ApPhase::Startup1Check, ApEvent::Icr(v)) => if v & ICR_PENDING != 0 { ApPhase::Count } else { ApPhase::Startup2 },
            (ApPhase::Startup2, ApEvent::Completed) => ApPhase::Startup2Wait,
            (ApPhase::Startup2Wait, ApEvent::Completed) => ApPhase::Startup2Check,
            (ApPhase::Startup2Check, ApEvent::Icr(_)) => ApPhase::Count,
            (ApPhase::Count, ApEvent::CoreCount(n)) =>
                if n < self.num_ap as u32 - 1 { ApPhase::CountWait } else { ApPhase::Finished(n as usize) },
            (ApPhase::CountWait, ApEvent::Completed) => ApPhase::Count,
            _ => self.phase,
        };
        self.phase = next;
        self.action()
    }
}

} // verus!
