//! The DMX frame behind the sACN output: a start code and 512 slots, of which
//! two carry the master tempo and a beat counter.
use vstd::prelude::*;

verus! {

/// Slots in a DMX universe.
pub const DMX_SLOTS: usize = 512;

/// Highest tempo a slot carries.
pub const MAX_SLOT_TEMPO: i32 = 250;

/// Settings of the sACN output after out-of-range values are replaced.
#[derive(Clone, Copy, Debug, PartialEq, Eq, Structural)]
pub struct SacnSettings {
    pub universe: u16,
    pub start_slot: usize,
    pub priority: u8,
}

/// Universe 0 becomes 1; the start slot is kept within 1 to 511, so that the
/// beat slot after it exists; the priority is kept within 1 to 200.
pub fn sacn_settings(universe: u16, start_channel: u16, priority: u8) -> (r: SacnSettings)
    ensures
        r.universe == if universe == 0 { 1 } else { universe },
        r.start_slot == if start_channel < 1 { 1 } else if start_channel > 511 { 511 } else { start_channel },
        r.priority == if priority < 1 { 1 } else if priority > 200 { 200 } else { priority },
{
    let universe = if universe == 0 { 1 } else { universe };
    let start_slot: usize = if start_channel < 1 {
        1
    } else if start_channel > 511 {
        511
    } else {
        start_channel as usize
    };
    let priority = if priority < 1 {
        1
    } else if priority > 200 {
        200
    } else {
        priority
    };
    SacnSettings { universe, start_slot, priority }
}

/// The frame, the slot it starts at, and the beat counter.
pub struct DmxFrame {
    dmx: Vec<u8>,
    start_slot: usize,
    last_beat_floor: i32,
    beat_counter: u8,
}

impl DmxFrame {
    /// An all-zero frame whose tempo goes to `start_slot` and beat counter to the
    /// slot after it.
    pub fn new(start_slot: usize) -> (r: Self)
        requires
            1 <= start_slot <= 511,
        ensures
            r.wf(),
            r.start_slot() == start_slot,
            r.slots() == Seq::new(513, |i: int| 0u8),
            r.beat_counter() == 0,
            r.last_beat_floor() == i32::MIN,
    {
        let mut dmx: Vec<u8> = Vec::new();
        let mut i: usize = 0;
        while i < 513
            invariant
                0 <= i <= 513,
                dmx@ == Seq::new(i as nat, |j: int| 0u8),
            decreases 513 - i,
        {
            dmx.push(0);
            i = i + 1;
            assert(dmx@ =~= Seq::new(i as nat, |j: int| 0u8));
        }
        DmxFrame { dmx, start_slot, last_beat_floor: i32::MIN, beat_counter: 0 }
    }

    pub closed spec fn wf(&self) -> bool {
        &&& self.dmx@.len() == 513
        &&& 1 <= self.start_slot <= 511
    }

    /// The start code and the 512 slots.
    pub closed spec fn slots(&self) -> Seq<u8> {
        self.dmx@
    }

    pub closed spec fn start_slot(&self) -> usize {
        self.start_slot
    }

    pub closed spec fn beat_counter(&self) -> u8 {
        self.beat_counter
    }

    pub closed spec fn last_beat_floor(&self) -> i32 {
        self.last_beat_floor
    }

    /// Writes a slot, numbered from 1; numbers outside 1 to 512 change nothing.
    pub fn write_u8_slot(&mut self, slot_1based: usize, value: u8)
        requires
            old(self).wf(),
        ensures
            final(self).wf(),
            final(self).slots() == if 1 <= slot_1based <= DMX_SLOTS {
                old(self).slots().update(slot_1based as int, value)
            } else {
                old(self).slots()
            },
            final(self).start_slot() == old(self).start_slot(),
            final(self).beat_counter() == old(self).beat_counter(),
            final(self).last_beat_floor() == old(self).last_beat_floor(),
    {
        if 1 <= slot_1based && slot_1based <= DMX_SLOTS {
            self.dmx.set(slot_1based, value);
        }
    }

    /// Puts the master tempo, rounded to whole BPM, into the tempo slot, held
    /// within 0 to 250.
    pub fn tempo_changed(&mut self, bpm: i32)
        requires
            old(self).wf(),
        ensures
            final(self).wf(),
            final(self).slots() == old(self).slots().update(
                old(self).start_slot() as int,
                (if bpm < 0 { 0 } else if bpm > MAX_SLOT_TEMPO { MAX_SLOT_TEMPO } else { bpm }) as u8,
            ),
            final(self).start_slot() == old(self).start_slot(),
            final(self).beat_counter() == old(self).beat_counter(),
            final(self).last_beat_floor() == old(self).last_beat_floor(),
    {
        let v = if bpm < 0 {
            0
        } else if bpm > MAX_SLOT_TEMPO {
            MAX_SLOT_TEMPO
        } else {
            bpm
        };
        self.write_u8_slot(self.start_slot, v as u8);
    }

    /// Takes in the whole beat the master deck is in. When it differs from the
    /// previous one the counter advances (wrapping after 255) into the beat slot,
    /// and the frame must be sent: the result says so.
    pub fn beat_changed(&mut self, beat_floor: i32) -> (send: bool)
        requires
            old(self).wf(),
        ensures
            final(self).wf(),
            send == (beat_floor != old(self).last_beat_floor()),
            final(self).last_beat_floor() == beat_floor,
            final(self).start_slot() == old(self).start_slot(),
            send ==> final(self).beat_counter() == (if old(self).beat_counter() == 255 {
                0
            } else {
                old(self).beat_counter() + 1
            }),
            send ==> final(self).slots() == old(self).slots().update(
                old(self).start_slot() + 1,
                final(self).beat_counter(),
            ),
            !send ==> final(self).beat_counter() == old(self).beat_counter() && final(self).slots()
                == old(self).slots(),
    {
        if self.last_beat_floor == beat_floor {
            return false;
        }
        self.last_beat_floor = beat_floor;
        self.beat_counter = if self.beat_counter == 255 { 0 } else { self.beat_counter + 1 };
        self.write_u8_slot(self.start_slot + 1, self.beat_counter);
        true
    }

    /// The part of the frame that is sent: the start code up to the beat slot.
    pub fn used(&self) -> (r: &[u8])
        requires
            self.wf(),
        ensures
            r@ == self.slots().subrange(0, self.start_slot() + 2),
    {
        let last_slot = if self.start_slot + 1 < DMX_SLOTS { self.start_slot + 1 } else { DMX_SLOTS };
        self.dmx.as_slice().split_at(1 + last_slot).0
    }
}

} // verus!
