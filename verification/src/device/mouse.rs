//! Mouse input: button and motion state, the PS/2 and USB mouse drivers, and
//! the merging of queued motion events.
use vstd::prelude::*;
use crate::collections::queue::Queue;

verus! {

/// One mouse event: buttons that went down, buttons that went up, motion.
#[derive(Clone, Copy, PartialEq, Eq, Structural)]
pub struct MouseState {
    pub pressed: u8,
    pub released: u8,
    pub x_v: i16,
    pub y_v: i16,
    pub z_v: i16,
}

impl MouseState {
    pub fn new(pressed: u8, released: u8, x_v: i16, y_v: i16, z_v: i16) -> (r: Self)
        ensures
            r == (MouseState { pressed, released, x_v, y_v, z_v }),
    {
        Self { pressed, released, x_v, y_v, z_v }
    }

    /// No buttons, no motion.
    pub fn empty() -> (r: Self)
        ensures
            r == (MouseState { pressed: 0, released: 0, x_v: 0, y_v: 0, z_v: 0 }),
    {
        Self { pressed: 0, released: 0, x_v: 0, y_v: 0, z_v: 0 }
    }

    /// Button `index` went down.
    pub fn pressed(&self, index: u8) -> (r: bool)
        requires
            index < 8,
        ensures
            r == ((self.pressed >> index) & 0x01 != 0),
    {
        (self.pressed >> index) & 0x01 != 0
    }

    /// Button `index` went up.
    pub fn released(&self, index: u8) -> (r: bool)
        requires
            index < 8,
        ensures
            r == ((self.released >> index) & 0x01 != 0),
    {
        (self.released >> index) & 0x01 != 0
    }

    pub fn x_v(&self) -> (r: i16)
        ensures
            r == self.x_v,
    {
        self.x_v
    }

    pub fn y_v(&self) -> (r: i16)
        ensures
            r == self.y_v,
    {
        self.y_v
    }

    pub fn z_v(&self) -> (r: i16)
        ensures
            r == self.z_v,
    {
        self.z_v
    }
}

/// Most events merged into one state.
pub const MAX_SKIP_MOUSE_EVENT: usize = 20;

/// The merge of the first `n` events: motions add up, button bits combine.
pub open spec fn merged(events: Seq<MouseState>, n: int) -> (int, int, int, u8, u8)
    decreases n,
{
    if n <= 0 {
        (0, 0, 0, 0u8, 0u8)
    } else {
        let (x, y, z, p, r) = merged(events, n - 1);
        let e = events[n - 1];
        (x + e.x_v, y + e.y_v, z + e.z_v, p | e.pressed, r | e.released)
    }
}

/// Every partial sum of the motions of the first `m` events fits an `i16`.
pub open spec fn merge_fits(events: Seq<MouseState>, m: int) -> bool {
    forall|n: int| 0 < n <= m ==> {
        let (x, y, z, p, r) = #[trigger] merged(events, n);
        &&& i16::MIN <= x <= i16::MAX
        &&& i16::MIN <= y <= i16::MAX
        &&& i16::MIN <= z <= i16::MAX
    }
}

/// Number of events a merge takes from a queue holding `len` of them.
pub open spec fn merge_count(len: int) -> int {
    if len < MAX_SKIP_MOUSE_EVENT { len } else { MAX_SKIP_MOUSE_EVENT as int }
}

/// Whether the motions of the events a merge takes add up within `i16` at
/// every step.
pub fn mouse_merge_fits(queue: &Queue<MouseState>) -> (r: bool)
    requires
        queue.wf(),
    ensures
        r == merge_fits(queue@, merge_count(queue@.len() as int)),
{
    proof {
        queue.lemma_within_capacity();
    }
    let len = queue.len();
    let m = if len < MAX_SKIP_MOUSE_EVENT { len } else { MAX_SKIP_MOUSE_EVENT };
    let ghost events = queue@;
    let mut x: i32 = 0;
    let mut y: i32 = 0;
    let mut z: i32 = 0;
    let mut n: usize = 0;
    while n < m
        invariant
            n <= m,
            m == merge_count(events.len() as int),
            events == queue@,
            queue.wf(),
            m <= events.len(),
            merged(events, n as int).0 == x as int,
            merged(events, n as int).1 == y as int,
            merged(events, n as int).2 == z as int,
            i16::MIN <= x <= i16::MAX && i16::MIN <= y <= i16::MAX && i16::MIN <= z <= i16::MAX,
            merge_fits(events, n as int),
        decreases m - n,
    {
        let e = queue.get(n);
        x = x + e.x_v as i32;
        y = y + e.y_v as i32;
        z = z + e.z_v as i32;
        proof {
            assert(merged(events, n + 1).0 == merged(events, n as int).0 + events[n as int].x_v);
            assert(merged(events, n + 1).1 == merged(events, n as int).1 + events[n as int].y_v);
            assert(merged(events, n + 1).2 == merged(events, n as int).2 + events[n as int].z_v);
        }
        n = n + 1;
        if x < i16::MIN as i32 || x > i16::MAX as i32 || y < i16::MIN as i32 || y > i16::MAX as i32
            || z < i16::MIN as i32 || z > i16::MAX as i32 {
            proof {
                let k = n as int;
                assert(0 < k <= m);
                let t = merged(events, k);
                assert(!(i16::MIN <= t.0 <= i16::MAX && i16::MIN <= t.1 <= i16::MAX && i16::MIN <= t.2 <= i16::MAX));
            }
            return false;
        }
        proof {
            assert forall|k: int| 0 < k <= n implies {
                let (a, b, c, p, r) = #[trigger] merged(events, k);
                &&& i16::MIN <= a <= i16::MAX
                &&& i16::MIN <= b <= i16::MAX
                &&& i16::MIN <= c <= i16::MAX
            } by {
                if k < n {
                }
            }
        }
    }
    true
}

/// Merges up to `MAX_SKIP_MOUSE_EVENT` queued events into one state;
/// `None` when the queue is empty.
pub fn get_mouse_state_unblocked(queue: &mut Queue<MouseState>) -> (r: Option<MouseState>)
    requires
        old(queue).wf(),
        merge_fits(old(queue)@, merge_count(old(queue)@.len() as int)),
    ensures
        final(queue).wf(),
        final(queue).capacity() == old(queue).capacity(),
        old(queue)@.len() == 0 ==> r is None && final(queue)@ == old(queue)@,
        old(queue)@.len() > 0 ==> {
            let m = merge_count(old(queue)@.len() as int);
            let (x, y, z, p, rl) = merged(old(queue)@, m);
            &&& r == Some(MouseState { pressed: p, released: rl, x_v: x as i16, y_v: y as i16, z_v: z as i16 })
            &&& final(queue)@ == old(queue)@.subrange(m, old(queue)@.len() as int)
        },
{
    if queue.is_empty() {
        return None;
    }
    let ghost events = queue@;
    let mut state = MouseState::empty();
    let mut i: usize = 0;
    while i < MAX_SKIP_MOUSE_EVENT
        invariant
            i <= MAX_SKIP_MOUSE_EVENT,
            queue.wf(),
            queue.capacity() == old(queue).capacity(),
            events == old(queue)@,
            i <= events.len(),
            merge_fits(events, merge_count(events.len() as int)),
            queue@ == events.subrange(i as int, events.len() as int),
            ({
                let (x, y, z, p, rl) = merged(events, i as int);
                state == MouseState { pressed: p, released: rl, x_v: x as i16, y_v: y as i16, z_v: z as i16 }
                && i16::MIN <= x <= i16::MAX && i16::MIN <= y <= i16::MAX && i16::MIN <= z <= i16::MAX
            }),
        ensures
            i == merge_count(events.len() as int),
            queue.wf(),
            queue.capacity() == old(queue).capacity(),
            queue@ == events.subrange(i as int, events.len() as int),
            ({
                let (x, y, z, p, rl) = merged(events, i as int);
                state == MouseState { pressed: p, released: rl, x_v: x as i16, y_v: y as i16, z_v: z as i16 }
            }),
        decreases MAX_SKIP_MOUSE_EVENT - i,
    {
        let res = queue.dequeue();
        match res {
            Ok(current) => {
                proof {
                    assert(current == events[i as int]);
                    let (x, y, z, p, rl) = merged(events, i + 1);
                    assert(merged(events, i + 1) == (
                        merged(events, i as int).0 + current.x_v,
                        merged(events, i as int).1 + current.y_v,
                        merged(events, i as int).2 + current.z_v,
                        merged(events, i as int).3 | current.pressed,
                        merged(events, i as int).4 | current.released));
                    assert(0 < i + 1 <= merge_count(events.len() as int));
                }
                state.x_v = state.x_v + current.x_v;
                state.y_v = state.y_v + current.y_v;
                state.z_v = state.z_v + current.z_v;
                state.pressed = state.pressed | current.pressed;
                state.released = state.released | current.released;
                i = i + 1;
                proof {
                    assert(queue@ =~= events.subrange(i as int, events.len() as int));
                }
            },
            Err(_) => {
                break;
            },
        }
    }
    Some(state)
}

/// Assembles three-byte PS/2 mouse packets.
pub struct PS2MouseDriver {
    pub count: usize,
    pub state: u8,
    pub x_v: u8,
    pub y_v: u8,
    pub z_v: u8,
    pub prev_state: u8,
}

/// The signed motion of a packet axis: the byte, minus 256 when its sign
/// bit in the packet's state byte is set.
pub open spec fn axis(value: u8, negative: bool) -> int {
    if negative { value - 256 } else { value as int }
}

impl PS2MouseDriver {
    pub fn new() -> (r: Self)
        ensures
            r.count == 0 && r.state == 0 && r.x_v == 0 && r.y_v == 0 && r.z_v == 0 && r.prev_state == 0,
    {
        Self { count: 0, state: 0, x_v: 0, y_v: 0, z_v: 0, prev_state: 0 }
    }

    /// Takes one byte of a packet. The third byte completes it: the result
    /// is then the buttons that went down, those that went up, and the
    /// motion, with the vertical axis pointing down. A count past the
    /// packet's three bytes starts a new packet, dropping the byte.
    pub fn on_data_received(&mut self, data: u8) -> (r: Option<(u8, u8, i16, i16)>)
        ensures
            final(self).count < 3,
            old(self).count >= 3 ==> r is None && *final(self) == (PS2MouseDriver { count: 0, ..*old(self) }),
            old(self).count == 0 ==> r is None && *final(self) == (PS2MouseDriver { state: data, count: 1, ..*old(self) }),
            old(self).count == 1 ==> r is None && *final(self) == (PS2MouseDriver { x_v: data, count: 2, ..*old(self) }),
            old(self).count == 2 ==> {
                let curr = old(self).state & 0x07;
                let prev = old(self).prev_state;
                &&& r == Some((
                    (curr & !prev) & 0x07,
                    (!curr & prev) & 0x07,
                    axis(old(self).x_v, old(self).state & 0x10 != 0) as i16,
                    (-axis(data, old(self).state & 0x20 != 0)) as i16))
                &&& *final(self) == (PS2MouseDriver { y_v: data, count: 0, prev_state: curr, ..*old(self) })
            },
    {
        match self.count {
            0 => {
                self.state = data;
                self.count = self.count + 1;
            },
            1 => {
                self.x_v = data;
                self.count = self.count + 1;
            },
            2 => {
                self.y_v = data;
                self.count = self.count + 1;
            },
            _ => {
                self.count = 0;
            },
        }
        if self.count >= 3 {
            let curr_state = self.state & 0x07;
            let mut x_v = self.x_v as i16;
            let mut y_v = self.y_v as i16;
            if self.state & 0x10 != 0 {
                x_v = x_v - 256;
            }
            if self.state & 0x20 != 0 {
                y_v = y_v - 256;
            }
            y_v = -y_v;
            let pressed = curr_state & !self.prev_state;
            let released = !curr_state & self.prev_state;
            self.prev_state = curr_state;
            self.count = 0;
            Some((pressed & 0x07, released & 0x07, x_v, y_v))
        } else {
            None
        }
    }
}

/// Decodes USB HID boot-protocol mouse reports.
#[derive(Clone, Copy)]
pub struct USBMouseDriver {
    pub prev_state: u8,
    pub buffer: [i8; 4],
}

impl USBMouseDriver {
    pub fn new() -> (r: Self)
        ensures
            r.prev_state == 0,
            forall|i: int| 0 <= i < 4 ==> r.buffer@[i] == 0,
    {
        Self { prev_state: 0, buffer: [0i8; 4] }
    }

    /// Stores the report the controller delivered.
    pub fn set_report(&mut self, report: [i8; 4])
        ensures
            final(self).buffer == report,
            final(self).prev_state == old(self).prev_state,
    {
        self.buffer = report;
    }

    /// Handles a delivered report: buttons that went down, buttons that went
    /// up, and the three motions.
    pub fn on_data_received(&mut self) -> (r: (u8, u8, i8, i8, i8))
        ensures
            ({
                let state = old(self).buffer@[0] as u8;
                &&& r == (!old(self).prev_state & state, old(self).prev_state & !state,
                    old(self).buffer@[1], old(self).buffer@[2], old(self).buffer@[3])
                &&& final(self).prev_state == state
                &&& final(self).buffer == old(self).buffer
            }),
    {
        let state = self.buffer[0] as u8;
        let pressed = !self.prev_state & state;
        let released = self.prev_state & !state;
        let r = (pressed, released, self.buffer[1], self.buffer[2], self.buffer[3]);
        self.prev_state = state;
        r
    }

    pub fn data_buffer_len(&self) -> (r: u32)
        ensures
            r == 4,
    {
        4
    }
}

/// The mouse: hands out its drivers.
pub struct Mouse {}

impl Mouse {
    pub fn new() -> (r: Self) {
        Self {}
    }

    pub fn usb(&self) -> (r: USBMouseDriver)
        ensures
            r.prev_state == 0,
            forall|i: int| 0 <= i < 4 ==> r.buffer@[i] == 0,
    {
        USBMouseDriver::new()
    }

    pub fn ps2(&self) -> (r: PS2MouseDriver)
        ensures
            r.count == 0 && r.state == 0 && r.prev_state == 0,
    {
        PS2MouseDriver::new()
    }

    /// The queued event for a USB report.
    pub fn usb_event(pressed: u8, released: u8, x_v: i8, y_v: i8, z_v: i8) -> (r: MouseState)
        ensures
            r == (MouseState { pressed, released, x_v: x_v as i16, y_v: y_v as i16, z_v: z_v as i16 }),
    {
        MouseState::new(pressed, released, x_v as i16, y_v as i16, z_v as i16)
    }

    /// The queued event for a PS/2 packet: a button counts as released
    /// whenever it is not pressed.
    pub fn ps2_event(pressed: u8, x_v: i16, y_v: i16) -> (r: MouseState)
        ensures
            r == (MouseState { pressed, released: !pressed & 0x07, x_v, y_v, z_v: 0 }),
    {
        MouseState::new(pressed, !pressed & 0x07, x_v, y_v, 0)
    }
}

} // verus!
