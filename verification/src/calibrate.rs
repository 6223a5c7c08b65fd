//! The startup scan, as a state machine: one resting baseline for every
//! key of the layout.

use vstd::prelude::*;
use keyberon::key_code::KeyCode;
use crate::consts::CHANNELS;
use crate::filter::{KeyModel, KeyState};
use crate::mux::{Level, Mux, line_pattern};
use crate::sampler::{Sampler, SamplerModel};
use crate::scan::{Action, Event};
use crate::table::{Bus, ScanTable, TableModel};

verus! {

/// Number of slots of a layout: one per channel on each bus.
pub const SLOTS: usize = 32;

/// The bus of a slot. The slots of the first bus come first.
pub open spec fn slot_bus(slot: int) -> Bus {
    if slot < CHANNELS {
        Bus::Am0
    } else {
        Bus::Am1
    }
}

/// The channel of a slot.
pub open spec fn slot_channel(slot: int) -> int {
    if slot < CHANNELS {
        slot
    } else {
        slot - CHANNELS
    }
}

/// The first slot at or after `from` that the layout gives a key, or the
/// number of slots if there is none.
pub open spec fn next_populated(codes: Seq<Option<KeyCode>>, from: int) -> int
    decreases SLOTS - from,
{
    if from >= SLOTS {
        SLOTS as int
    } else if codes[from] is Some {
        from
    } else {
        next_populated(codes, from + 1)
    }
}

/// Whether the table holds at `slot` what calibration leaves there: no key
/// where the layout has none, else a released key of the layout's code
/// whose smoothed reading is its baseline.
pub open spec fn calibrated(table: TableModel, codes: Seq<Option<KeyCode>>, slot: int) -> bool {
    match codes[slot] {
        Some(code) => table.key(slot_bus(slot), slot_channel(slot)) matches Some(key) && key
            == KeyModel::initial(code, key.resting),
        None => table.key(slot_bus(slot), slot_channel(slot)) is None,
    }
}

/// What a calibrator holds, as mathematical values.
pub struct CalibrationModel {
    /// The layout: the code of each slot's key, the first bus first.
    pub codes: Seq<Option<KeyCode>>,
    /// The keys calibrated so far.
    pub table: TableModel,
    /// The sampler that turns conversions into readings.
    pub sampler: SamplerModel,
    /// The levels of the select lines.
    pub lines: Seq<Level>,
    /// The slot being calibrated, or the number of slots when none is left.
    pub slot: int,
    /// Whether the channel of that slot has been addressed.
    pub selected: bool,
}

impl CalibrationModel {
    /// A calibrator about to begin.
    pub open spec fn start(
        codes: Seq<Option<KeyCode>>,
        sampler: SamplerModel,
        lines: Seq<Level>,
    ) -> CalibrationModel {
        CalibrationModel {
            codes,
            table: TableModel::empty(),
            sampler,
            lines,
            slot: next_populated(codes, 0),
            selected: false,
        }
    }

    /// The slot being calibrated has a key in the layout and is sampled
    /// only while its channel is addressed. The slots before it are
    /// calibrated, the others are still empty.
    pub open spec fn wf(self) -> bool {
        &&& self.codes.len() == SLOTS
        &&& self.table.wf()
        &&& self.sampler.wf()
        &&& 0 <= self.slot <= SLOTS
        &&& self.slot < SLOTS ==> self.codes[self.slot] is Some
        &&& if self.selected {
            self.slot < SLOTS && self.lines == line_pattern(slot_channel(self.slot))
        } else {
            self.sampler.is_idle()
        }
        &&& forall|slot: int| 0 <= slot < self.slot ==> #[trigger] calibrated(self.table, self.codes, slot)
        &&& forall|slot: int|
            self.slot <= slot < SLOTS ==> #[trigger] self.table.key(
                slot_bus(slot),
                slot_channel(slot),
            ) is None
    }

    /// Whether every key of the layout has its baseline.
    pub open spec fn complete(self) -> bool {
        self.slot == SLOTS
    }

    /// What the hardware is to do next, if anything is left to do.
    pub open spec fn pending(self) -> Option<Action> {
        if self.complete() {
            None
        } else if self.selected {
            Some(
                Action::Convert {
                    channel: slot_channel(self.slot) as u8,
                    bus: slot_bus(self.slot),
                },
            )
        } else {
            Some(Action::Select { channel: slot_channel(self.slot) as u8 })
        }
    }

    /// Whether `event` answers the pending action.
    pub open spec fn accepts(self, event: Event) -> bool {
        !self.complete() && if self.selected {
            event is Converted
        } else {
            event is Done
        }
    }

    /// The calibrator after `event`. Once the select lines are driven the
    /// slot is sampled. The complete reading becomes the baseline of a new
    /// key, and calibration goes on with the next slot that the layout
    /// gives a key. An event that does not answer the pending action
    /// changes nothing.
    pub open spec fn step(self, event: Event) -> CalibrationModel {
        if !self.accepts(event) {
            self
        } else if !self.selected {
            CalibrationModel {
                lines: line_pattern(slot_channel(self.slot)),
                selected: true,
                ..self
            }
        } else {
            let raw = event->raw as int;
            let sampler = self.sampler.feed(raw);
            match self.sampler.reading(raw) {
                None => CalibrationModel { sampler, ..self },
                Some(value) => CalibrationModel {
                    sampler,
                    table: self.table.with_key(
                        slot_bus(self.slot),
                        slot_channel(self.slot),
                        KeyModel::initial(self.codes[self.slot]->0, value),
                    ),
                    slot: next_populated(self.codes, self.slot + 1),
                    selected: false,
                    ..self
                },
            }
        }
    }
}

/// The startup scan: addresses every key of the layout once, the first
/// bus before the second and the channels of a bus in ascending order,
/// and takes one reading of it as its resting baseline.
pub struct Calibrator {
    am0: [Option<KeyCode>; 16],
    am1: [Option<KeyCode>; 16],
    table: ScanTable,
    sampler: Sampler,
    mux: Mux,
    slot: usize,
    selected: bool,
}

impl View for Calibrator {
    type V = CalibrationModel;

    closed spec fn view(&self) -> CalibrationModel {
        CalibrationModel {
            codes: self.am0@ + self.am1@,
            table: self.table@,
            sampler: self.sampler@,
            lines: self.mux.lines(),
            slot: self.slot as int,
            selected: self.selected,
        }
    }
}

impl Calibrator {
    /// The calibrator is in a state that a startup scan can be in.
    pub closed spec fn wf(&self) -> bool {
        self@.wf() && self.sampler.wf()
    }

    /// The code that the layout gives a slot.
    fn code_at(&self, slot: usize) -> (code: Option<KeyCode>)
        requires
            slot < SLOTS,
        ensures
            code == self@.codes[slot as int],
    {
        if slot < CHANNELS {
            self.am0[slot]
        } else {
            self.am1[slot - CHANNELS]
        }
    }

    /// Moves on to the first slot at or after `from` that has a key.
    fn seek(&mut self, from: usize)
        requires
            from <= SLOTS,
        ensures
            final(self).slot == next_populated(old(self)@.codes, from as int),
            final(self).slot <= SLOTS,
            final(self).am0 == old(self).am0,
            final(self).am1 == old(self).am1,
            final(self).table == old(self).table,
            final(self).sampler == old(self).sampler,
            final(self).mux == old(self).mux,
            final(self).selected == old(self).selected,
    {
        let mut slot: usize = from;
        let mut found: bool = false;
        while slot < SLOTS && !found
            invariant
                from <= slot <= SLOTS,
                found ==> slot < SLOTS && self@.codes[slot as int] is Some,
                next_populated(self@.codes, slot as int) == next_populated(self@.codes, from as int),
            decreases SLOTS - slot + (if found { 0int } else { 1int }),
        {
            if self.code_at(slot).is_some() {
                found = true;
            } else {
                slot += 1;
            }
        }
        self.slot = slot;
    }

    /// A calibrator for the layout of the two buses, about to begin.
    pub fn new(
        am0: [Option<KeyCode>; 16],
        am1: [Option<KeyCode>; 16],
        mux: Mux,
        sampler: Sampler,
    ) -> (calibrator: Calibrator)
        requires
            sampler.wf(),
            sampler@.is_idle(),
        ensures
            calibrator.wf(),
            calibrator@ == CalibrationModel::start(am0@ + am1@, sampler@, mux.lines()),
    {
        let mut calibrator = Calibrator {
            am0,
            am1,
            table: ScanTable::empty(),
            sampler,
            mux,
            slot: 0,
            selected: false,
        };
        calibrator.seek(0);
        proof {
            sampler.lemma_wf_view();
            lemma_next_populated(am0@ + am1@, 0);
        }
        calibrator
    }

    /// Whether every key of the layout has its baseline.
    pub fn complete(&self) -> (complete: bool)
        ensures
            complete == self@.complete(),
    {
        self.slot == SLOTS
    }

    /// What the hardware is to do next, if anything is left to do.
    pub fn pending(&self) -> (action: Option<Action>)
        requires
            self.wf(),
        ensures
            action == self@.pending(),
    {
        if self.slot >= SLOTS {
            None
        } else {
            let (bus, channel) = if self.slot < CHANNELS {
                (Bus::Am0, self.slot as u8)
            } else {
                (Bus::Am1, (self.slot - CHANNELS) as u8)
            };
            if self.selected {
                Some(Action::Convert { channel, bus })
            } else {
                Some(Action::Select { channel })
            }
        }
    }

    /// Whether `event` answers the pending action.
    pub fn accepts(&self, event: Event) -> (accepted: bool)
        ensures
            accepted == self@.accepts(event),
    {
        if self.slot == SLOTS {
            false
        } else if self.selected {
            match event {
                Event::Converted { .. } => true,
                Event::Done => false,
            }
        } else {
            match event {
                Event::Done => true,
                Event::Converted { .. } => false,
            }
        }
    }

    /// Takes the answer to the pending action, and says what the hardware
    /// is to do next, if anything is left to do. An event that does not
    /// answer the pending action is passed over.
    pub fn step(&mut self, event: Event) -> (action: Option<Action>)
        requires
            old(self).wf(),
        ensures
            final(self).wf(),
            final(self)@ == old(self)@.step(event),
            action == final(self)@.pending(),
    {
        if self.accepts(event) {
            let (bus, channel) = if self.slot < CHANNELS {
                (Bus::Am0, self.slot as u8)
            } else {
                (Bus::Am1, (self.slot - CHANNELS) as u8)
            };
            match event {
                Event::Done => {
                    self.mux.select(channel);
                    self.selected = true;
                },
                Event::Converted { raw } => {
                    if let Some(value) = self.sampler.feed(raw) {
                        if let Some(code) = self.code_at(self.slot) {
                            self.table.insert(bus, channel, KeyState::new(code, value));
                            self.selected = false;
                            self.seek(self.slot + 1);
                        }
                    }
                },
            }
            proof {
                lemma_step_wf(old(self)@, event);
            }
        }
        self.pending()
    }

    /// A calibrator in a valid state stands for a valid model.
    pub proof fn lemma_wf_view(&self)
        requires
            self.wf(),
        ensures
            self@.wf(),
    {
    }

    /// Hands over the calibrated keys and the multiplexer.
    pub fn finish(self) -> (parts: (ScanTable, Mux))
        requires
            self.wf(),
            self@.complete(),
        ensures
            parts.0@ == self@.table,
            parts.1.lines() == self@.lines,
    {
        (self.table, self.mux)
    }
}

/// The slot that calibration moves on to is a slot with a key, or the end,
/// and the slots that it passes over have none.
pub proof fn lemma_next_populated(codes: Seq<Option<KeyCode>>, from: int)
    requires
        0 <= from <= SLOTS,
    ensures
        from <= next_populated(codes, from) <= SLOTS,
        next_populated(codes, from) < SLOTS ==> codes[next_populated(codes, from)] is Some,
        forall|slot: int| from <= slot < next_populated(codes, from) ==> #[trigger] codes[slot] is None,
    decreases SLOTS - from,
{
    if from < SLOTS && codes[from] is None {
        lemma_next_populated(codes, from + 1);
    }
}

/// Every step that answers the pending action leaves the calibrator in a
/// state that a startup scan can be in, and never goes back to a slot
/// that it has left.
pub proof fn lemma_step_wf(calibrator: CalibrationModel, event: Event)
    requires
        calibrator.wf(),
        calibrator.accepts(event),
    ensures
        calibrator.step(event).wf(),
        calibrator.step(event).codes == calibrator.codes,
        calibrator.step(event).slot >= calibrator.slot,
        calibrator.step(event).slot > calibrator.slot <==> calibrator.selected
            && calibrator.sampler.reading(event->raw as int) is Some,
{
    let next = calibrator.step(event);
    if calibrator.selected {
        let raw = event->raw as int;
        if let Some(value) = calibrator.sampler.reading(raw) {
            let here = calibrator.slot;
            lemma_next_populated(calibrator.codes, here + 1);
            assert(next.table.key(slot_bus(here), slot_channel(here)) == Some(
                KeyModel::initial(calibrator.codes[here]->0, value),
            ));
            assert forall|slot: int| 0 <= slot < next.slot implies #[trigger] calibrated(
                next.table,
                next.codes,
                slot,
            ) by {
                if slot < here {
                    assert(calibrated(calibrator.table, calibrator.codes, slot));
                    assert(next.table.key(slot_bus(slot), slot_channel(slot))
                        == calibrator.table.key(slot_bus(slot), slot_channel(slot)));
                } else if slot > here {
                    assert(calibrator.codes[slot] is None);
                    assert(calibrator.table.key(slot_bus(slot), slot_channel(slot)) is None);
                }
            }
            assert forall|slot: int| next.slot <= slot < SLOTS implies #[trigger] next.table.key(
                slot_bus(slot),
                slot_channel(slot),
            ) is None by {
                assert(calibrator.table.key(slot_bus(slot), slot_channel(slot)) is None);
            }
        }
    }
}

/// When calibration is complete, the table has a key exactly where the
/// layout has one: a released key of the layout's code that rests at its
/// baseline.
pub proof fn lemma_complete_table(calibrator: CalibrationModel, bus: Bus, channel: int)
    requires
        calibrator.wf(),
        calibrator.complete(),
        0 <= channel < CHANNELS,
    ensures
        calibrated(
            calibrator.table,
            calibrator.codes,
            if bus == Bus::Am0 {
                channel
            } else {
                channel + CHANNELS
            },
        ),
{
}

} // verus!
