//! The scan loop, as a state machine. The machine says what the hardware
//! is to do next; the caller does it and reports back.

use vstd::prelude::*;
use crate::consts::{Value, CHANNELS};
use crate::mux::{Level, Mux, addressed, line_pattern, lemma_pattern_addresses};
use crate::sampler::{Sampler, SamplerModel};
use crate::filter::KeyModel;
use crate::table::{Bus, ScanTable, TableModel};

verus! {

/// What the hardware is to do next.
#[derive(Clone, Copy, Debug, PartialEq, Eq, Structural)]
pub enum Action {
    /// Drive the select lines so that the multiplexer addresses `channel`.
    Select { channel: u8 },
    /// Take one conversion on `bus`, while `channel` is addressed.
    Convert { channel: u8, bus: Bus },
    /// Drive the indicator line to `level`.
    Indicate { level: Level },
}

/// What the hardware has done.
#[derive(Clone, Copy, Debug, PartialEq, Eq, Structural)]
pub enum Event {
    /// The lines are driven as asked.
    Done,
    /// The conversion gave `raw`.
    Converted { raw: Value },
}

/// The level that shows on the indicator line whether a key is pressed.
/// The indicator is active-low: low while a key is pressed, high while
/// none is.
pub open spec fn indicator_level(active: bool) -> Level {
    if active {
        Level::Low
    } else {
        Level::High
    }
}

/// Where a sweep stands at its current channel.
#[derive(Clone, Copy, Debug, PartialEq, Eq, Structural)]
pub enum Stage {
    /// The channel is to be addressed.
    Select,
    /// The key of a bus is being sampled.
    Sample(Bus),
    /// The sweep is over and the indicator is to change.
    Indicate,
}

/// Order of the stages at one channel.
pub open spec fn stage_rank(stage: Stage) -> int {
    match stage {
        Stage::Select => 0,
        Stage::Sample(Bus::Am0) => 1,
        Stage::Sample(Bus::Am1) => 2,
        Stage::Indicate => 3,
    }
}

/// Position of the slot of `bus` at `channel` in the sweep.
pub open spec fn slot_rank(bus: Bus, channel: int) -> int {
    4 * channel + stage_rank(Stage::Sample(bus))
}

/// Whether a key is pressed whose slot comes before position `rank`.
pub open spec fn pressed_below(table: TableModel, rank: int) -> bool {
    exists|bus: Bus, channel: int|
        0 <= channel < CHANNELS && slot_rank(bus, channel) < rank && #[trigger] table.pressed(
            bus,
            channel,
        )
}

/// What a scanner holds, as mathematical values.
pub struct ScanModel {
    /// The keys.
    pub table: TableModel,
    /// The sampler that turns conversions into readings.
    pub sampler: SamplerModel,
    /// The levels of the select lines.
    pub lines: Seq<Level>,
    /// The channel that the sweep is at.
    pub channel: int,
    /// Where the sweep stands at that channel.
    pub stage: Stage,
    /// Whether a key that this sweep has sampled was pressed afterwards.
    pub any_pressed: bool,
    /// Whether the indicator shows a pressed key.
    pub indicator: bool,
    /// Number of sweeps completed.
    pub sweeps: nat,
}

impl ScanModel {
    /// A scanner about to begin its first sweep, the indicator inactive.
    pub open spec fn start(table: TableModel, sampler: SamplerModel, lines: Seq<Level>) -> ScanModel {
        ScanModel {
            table,
            sampler,
            lines,
            channel: 0,
            stage: Stage::Select,
            any_pressed: false,
            indicator: false,
            sweeps: 0,
        }
    }

    /// Position in the sweep: channels in ascending order, and at each
    /// channel the address first, then the first bus, then the second.
    pub open spec fn rank(self) -> int {
        4 * self.channel + stage_rank(self.stage)
    }

    /// Whether a key that this sweep is past is pressed.
    pub open spec fn pressed_so_far(self) -> bool {
        pressed_below(self.table, self.rank())
    }

    /// The sweep is at a channel of the multiplexer. A key is sampled only
    /// where there is one, and only while its channel is addressed. The
    /// indicator is asked to change only at the end of a sweep whose
    /// outcome differs from what it shows. The pressed flag gathers the
    /// keys that the sweep is past.
    pub open spec fn wf(self) -> bool {
        &&& self.table.wf()
        &&& self.sampler.wf()
        &&& 0 <= self.channel < CHANNELS
        &&& self.any_pressed == self.pressed_so_far()
        &&& match self.stage {
            Stage::Select => self.sampler.is_idle(),
            Stage::Sample(bus) => self.table.populated(bus, self.channel) && self.lines
                == line_pattern(self.channel),
            Stage::Indicate => self.sampler.is_idle() && self.channel == CHANNELS - 1
                && self.any_pressed != self.indicator,
        }
    }

    /// What the hardware is to do next.
    pub open spec fn pending(self) -> Action {
        match self.stage {
            Stage::Select => Action::Select { channel: self.channel as u8 },
            Stage::Sample(bus) => Action::Convert { channel: self.channel as u8, bus },
            Stage::Indicate => Action::Indicate { level: indicator_level(self.any_pressed) },
        }
    }

    /// Whether `event` answers the pending action.
    pub open spec fn accepts(self, event: Event) -> bool {
        match self.stage {
            Stage::Sample(_) => event is Converted,
            _ => event is Done,
        }
    }

    /// A new sweep begins.
    pub open spec fn restart(self) -> ScanModel {
        ScanModel {
            channel: 0,
            stage: Stage::Select,
            any_pressed: false,
            sweeps: self.sweeps + 1,
            ..self
        }
    }

    /// The sweep is over: the indicator is to change if the sweep found
    /// something else than it shows, else the next sweep begins.
    pub open spec fn end_sweep(self) -> ScanModel {
        if self.any_pressed != self.indicator {
            ScanModel { stage: Stage::Indicate, ..self }
        } else {
            self.restart()
        }
    }

    /// The current channel is done.
    pub open spec fn next_channel(self) -> ScanModel {
        if self.channel + 1 < CHANNELS {
            ScanModel { channel: self.channel + 1, stage: Stage::Select, ..self }
        } else {
            self.end_sweep()
        }
    }

    /// The first bus is done at the current channel.
    pub open spec fn seek_second(self) -> ScanModel {
        if self.table.populated(Bus::Am1, self.channel) {
            ScanModel { stage: Stage::Sample(Bus::Am1), ..self }
        } else {
            self.next_channel()
        }
    }

    /// The current channel is addressed.
    pub open spec fn seek_first(self) -> ScanModel {
        if self.table.populated(Bus::Am0, self.channel) {
            ScanModel { stage: Stage::Sample(Bus::Am0), ..self }
        } else {
            self.seek_second()
        }
    }

    /// The current slot is done.
    pub open spec fn seek_after(self, bus: Bus) -> ScanModel {
        match bus {
            Bus::Am0 => self.seek_second(),
            Bus::Am1 => self.next_channel(),
        }
    }

    /// The scanner after the select lines were driven.
    pub open spec fn after_select(self) -> ScanModel {
        (ScanModel { lines: line_pattern(self.channel), ..self }).seek_first()
    }

    /// The scanner after one conversion on `bus`. While the reading is
    /// incomplete only the sampler moves. The complete reading goes to
    /// the key, and the sweep goes on.
    pub open spec fn after_conversion(self, bus: Bus, raw: int) -> ScanModel {
        let sampler = self.sampler.feed(raw);
        match self.sampler.reading(raw) {
            None => ScanModel { sampler, ..self },
            Some(value) => {
                let table = self.table.update(bus, self.channel, value);
                (ScanModel {
                    sampler,
                    table,
                    any_pressed: self.any_pressed || table.pressed(bus, self.channel),
                    ..self
                }).seek_after(bus)
            },
        }
    }

    /// The scanner after the indicator line was driven.
    pub open spec fn after_indicate(self) -> ScanModel {
        (ScanModel { indicator: self.any_pressed, ..self }).restart()
    }

    /// The scanner after a sequence of events, oldest first.
    pub open spec fn run(self, events: Seq<Event>) -> ScanModel
        decreases events.len(),
    {
        if events.len() == 0 {
            self
        } else {
            self.run(events.drop_last()).step(events.last())
        }
    }

    /// Whether each of `events` answers the action that is pending when
    /// it comes.
    pub open spec fn admits(self, events: Seq<Event>) -> bool
        decreases events.len(),
    {
        events.len() == 0 || (self.admits(events.drop_last()) && self.run(
            events.drop_last(),
        ).accepts(events.last()))
    }

    /// The scanner after `event`. An event that does not answer the
    /// pending action changes nothing.
    pub open spec fn step(self, event: Event) -> ScanModel {
        match (self.stage, event) {
            (Stage::Select, Event::Done) => self.after_select(),
            (Stage::Sample(bus), Event::Converted { raw }) => self.after_conversion(bus, raw as int),
            (Stage::Indicate, Event::Done) => self.after_indicate(),
            _ => self,
        }
    }
}

/// The level that shows on the indicator line whether a key is pressed.
pub fn indicator_line(active: bool) -> (level: Level)
    ensures
        level == indicator_level(active),
{
    if active {
        Level::Low
    } else {
        Level::High
    }
}

/// The scan loop: sweeps over the channels, sampling every key, and keeps
/// the indicator in step with the keys.
pub struct Scanner {
    table: ScanTable,
    sampler: Sampler,
    mux: Mux,
    channel: u8,
    stage: Stage,
    any_pressed: bool,
    indicator: bool,
    sweeps: Ghost<nat>,
}

impl View for Scanner {
    type V = ScanModel;

    closed spec fn view(&self) -> ScanModel {
        ScanModel {
            table: self.table@,
            sampler: self.sampler@,
            lines: self.mux.lines(),
            channel: self.channel as int,
            stage: self.stage,
            any_pressed: self.any_pressed,
            indicator: self.indicator,
            sweeps: self.sweeps@,
        }
    }
}

impl Scanner {
    /// The scanner is in a state that a sweep can be in.
    pub closed spec fn wf(&self) -> bool {
        self@.wf() && self.sampler.wf()
    }

    /// A scanner about to begin its first sweep, the indicator inactive.
    pub fn new(table: ScanTable, mux: Mux, sampler: Sampler) -> (scanner: Scanner)
        requires
            sampler.wf(),
            sampler@.is_idle(),
        ensures
            scanner.wf(),
            scanner@ == ScanModel::start(table@, sampler@, mux.lines()),
    {
        let scanner = Scanner {
            table,
            sampler,
            mux,
            channel: 0,
            stage: Stage::Select,
            any_pressed: false,
            indicator: false,
            sweeps: Ghost(0),
        };
        proof {
            table.lemma_view_wf();
            sampler.lemma_wf_view();
            assert(!pressed_below(table@, 0));
        }
        scanner
    }

    /// What the hardware is to do next.
    pub fn pending(&self) -> (action: Action)
        ensures
            action == self@.pending(),
    {
        match self.stage {
            Stage::Select => Action::Select { channel: self.channel },
            Stage::Sample(bus) => Action::Convert { channel: self.channel, bus },
            Stage::Indicate => Action::Indicate { level: indicator_line(self.any_pressed) },
        }
    }

    /// Whether `event` answers the pending action.
    pub fn accepts(&self, event: Event) -> (accepted: bool)
        ensures
            accepted == self@.accepts(event),
    {
        match self.stage {
            Stage::Sample(_) => match event {
                Event::Converted { .. } => true,
                Event::Done => false,
            },
            _ => match event {
                Event::Done => true,
                Event::Converted { .. } => false,
            },
        }
    }

    fn restart(&mut self)
        ensures
            final(self)@ == old(self)@.restart(),
            final(self).sampler == old(self).sampler,
    {
        self.channel = 0;
        self.stage = Stage::Select;
        self.any_pressed = false;
        proof {
            self.sweeps@ = self.sweeps@ + 1;
        }
    }

    fn end_sweep(&mut self)
        ensures
            final(self)@ == old(self)@.end_sweep(),
            final(self).sampler == old(self).sampler,
    {
        if self.any_pressed != self.indicator {
            self.stage = Stage::Indicate;
        } else {
            self.restart();
        }
    }

    fn next_channel(&mut self)
        requires
            old(self).channel < CHANNELS,
        ensures
            final(self)@ == old(self)@.next_channel(),
            final(self).sampler == old(self).sampler,
    {
        if self.channel + 1 < CHANNELS as u8 {
            self.channel = self.channel + 1;
            self.stage = Stage::Select;
        } else {
            self.end_sweep();
        }
    }

    fn seek_second(&mut self)
        requires
            old(self).channel < CHANNELS,
        ensures
            final(self)@ == old(self)@.seek_second(),
            final(self).sampler == old(self).sampler,
    {
        if self.table.populated(Bus::Am1, self.channel) {
            self.stage = Stage::Sample(Bus::Am1);
        } else {
            self.next_channel();
        }
    }

    fn seek_first(&mut self)
        requires
            old(self).channel < CHANNELS,
        ensures
            final(self)@ == old(self)@.seek_first(),
            final(self).sampler == old(self).sampler,
    {
        if self.table.populated(Bus::Am0, self.channel) {
            self.stage = Stage::Sample(Bus::Am0);
        } else {
            self.seek_second();
        }
    }

    /// Takes the answer to the pending action, and says what the hardware
    /// is to do next. An event that does not answer the pending action is
    /// passed over.
    pub fn step(&mut self, event: Event) -> (action: Action)
        requires
            old(self).wf(),
        ensures
            final(self).wf(),
            final(self)@ == old(self)@.step(event),
            action == final(self)@.pending(),
    {
        match (self.stage, event) {
            (Stage::Select, Event::Done) => {
                self.mux.select(self.channel);
                self.seek_first();
            },
            (Stage::Sample(bus), Event::Converted { raw }) => {
                if let Some(value) = self.sampler.feed(raw) {
                    let pressed = self.table.update(bus, self.channel, value);
                    if !self.any_pressed && pressed {
                        self.any_pressed = true;
                    }
                    match bus {
                        Bus::Am0 => self.seek_second(),
                        Bus::Am1 => self.next_channel(),
                    }
                }
            },
            (Stage::Indicate, Event::Done) => {
                self.indicator = self.any_pressed;
                self.restart();
            },
            _ => {},
        }
        proof {
            if old(self)@.accepts(event) {
                lemma_step_wf(old(self)@, event);
            }
        }
        self.pending()
    }

    /// A scanner in a valid state stands for a valid model.
    pub proof fn lemma_wf_view(&self)
        requires
            self.wf(),
        ensures
            self@.wf(),
    {
    }

    /// The keys.
    pub fn table(&self) -> (table: &ScanTable)
        ensures
            table@ == self@.table,
    {
        &self.table
    }

    /// Whether the indicator shows a pressed key.
    pub fn indicator_active(&self) -> (active: bool)
        ensures
            active == self@.indicator,
    {
        self.indicator
    }
}

/// Moving past slots without a key finds no pressed key.
proof fn lemma_pressed_below_skip(table: TableModel, from: int, to: int)
    requires
        from <= to,
        forall|bus: Bus, channel: int|
            0 <= channel < CHANNELS && from <= slot_rank(bus, channel) < to ==> !(
            #[trigger] table.pressed(bus, channel)),
    ensures
        pressed_below(table, to) == pressed_below(table, from),
{
    if pressed_below(table, to) {
        let (bus, channel) = choose|bus: Bus, channel: int|
            0 <= channel < CHANNELS && slot_rank(bus, channel) < to && #[trigger] table.pressed(
                bus,
                channel,
            );
        assert(slot_rank(bus, channel) < from);
    }
    if pressed_below(table, from) {
        let (bus, channel) = choose|bus: Bus, channel: int|
            0 <= channel < CHANNELS && slot_rank(bus, channel) < from && #[trigger] table.pressed(
                bus,
                channel,
            );
        assert(slot_rank(bus, channel) < to);
    }
}

/// Moving past a slot whose key has just been replaced finds that key.
proof fn lemma_pressed_below_update(table: TableModel, bus: Bus, channel: int, key: KeyModel)
    requires
        table.wf(),
        0 <= channel < CHANNELS,
    ensures
        pressed_below(table.with_key(bus, channel, key), slot_rank(bus, channel) + 1) == (
        pressed_below(table, slot_rank(bus, channel)) || key.pressed),
{
    let after = table.with_key(bus, channel, key);
    let rank = slot_rank(bus, channel);
    assert forall|b: Bus, c: int| 0 <= c < CHANNELS && !(b == bus && c == channel) implies
        after.pressed(b, c) == table.pressed(b, c) by {
        assert(after.key(b, c) == table.key(b, c));
    }
    assert(after.key(bus, channel) == Some(key));
    assert(after.pressed(bus, channel) == key.pressed);
    if pressed_below(after, rank + 1) {
        let (b, c) = choose|b: Bus, c: int|
            0 <= c < CHANNELS && slot_rank(b, c) < rank + 1 && #[trigger] after.pressed(b, c);
        if !(b == bus && c == channel) {
            assert(table.pressed(b, c));
            assert(slot_rank(b, c) < rank);
        }
    }
    if pressed_below(table, rank) {
        let (b, c) = choose|b: Bus, c: int|
            0 <= c < CHANNELS && slot_rank(b, c) < rank && #[trigger] table.pressed(b, c);
        assert(after.pressed(b, c));
    }
    if key.pressed {
        assert(after.pressed(bus, channel));
    }
}

/// Past the last slot of a sweep, every key is behind the sweep.
proof fn lemma_pressed_below_all(table: TableModel)
    ensures
        pressed_below(table, 4 * CHANNELS - 1) == table.any_pressed(),
{
    if table.any_pressed() {
        let (bus, channel) = choose|bus: Bus, channel: int|
            0 <= channel < CHANNELS && #[trigger] table.pressed(bus, channel);
        assert(slot_rank(bus, channel) < 4 * CHANNELS - 1);
    }
}

/// Leaving a channel keeps the scanner in a state that a sweep can be in,
/// if every key up to the end of that channel is behind the sweep.
proof fn lemma_next_channel_wf(scanner: ScanModel)
    requires
        scanner.table.wf(),
        scanner.sampler.wf(),
        scanner.sampler.is_idle(),
        0 <= scanner.channel < CHANNELS,
        scanner.any_pressed == pressed_below(scanner.table, 4 * scanner.channel + 3),
    ensures
        scanner.next_channel().wf(),
        scanner.next_channel().sweeps != scanner.sweeps ==> scanner.next_channel().indicator
            == scanner.table.any_pressed(),
{
    let table = scanner.table;
    if scanner.channel + 1 < CHANNELS {
        lemma_pressed_below_skip(table, 4 * scanner.channel + 3, 4 * scanner.channel + 4);
    } else if scanner.any_pressed != scanner.indicator {
    } else {
        lemma_pressed_below_all(table);
        assert(!pressed_below(table, 0));
    }
}

/// Leaving the first bus of a channel keeps the scanner in a state that a
/// sweep can be in, if every key up to that bus is behind the sweep.
proof fn lemma_seek_second_wf(scanner: ScanModel)
    requires
        scanner.table.wf(),
        scanner.sampler.wf(),
        scanner.sampler.is_idle(),
        0 <= scanner.channel < CHANNELS,
        scanner.lines == line_pattern(scanner.channel),
        scanner.any_pressed == pressed_below(scanner.table, 4 * scanner.channel + 2),
    ensures
        scanner.seek_second().wf(),
        scanner.seek_second().sweeps != scanner.sweeps ==> scanner.seek_second().indicator
            == scanner.table.any_pressed(),
{
    if !scanner.table.populated(Bus::Am1, scanner.channel) {
        lemma_pressed_below_skip(scanner.table, 4 * scanner.channel + 2, 4 * scanner.channel + 3);
        lemma_next_channel_wf(scanner);
    }
}

/// Every step that answers the pending action leaves the scanner in a
/// state that a sweep can be in, and moves the sweep forward in the fixed
/// order: the channels ascending, none left out, and at each channel the
/// address first, then the first bus, then the second. The sweep stands
/// still only while a reading still lacks conversions. Only the step from
/// the last channel begins a new sweep, and from then on the indicator
/// shows whether any key is pressed. The indicator changes in no step but
/// the one that answers a request to drive it, and in every such step.
pub proof fn lemma_step_wf(scanner: ScanModel, event: Event)
    requires
        scanner.wf(),
        scanner.accepts(event),
    ensures
        scanner.step(event).wf(),
        scanner.step(event).sweeps == scanner.sweeps ==> {
            &&& scanner.step(event).rank() >= scanner.rank()
            &&& scanner.step(event).channel == scanner.channel || (scanner.step(event).channel
                == scanner.channel + 1 && scanner.step(event).stage == Stage::Select)
            &&& scanner.step(event).rank() == scanner.rank() ==> scanner.stage is Sample
                && scanner.sampler.reading(event->raw as int) is None
        },
        scanner.step(event).sweeps != scanner.sweeps ==> {
            &&& scanner.step(event).sweeps == scanner.sweeps + 1
            &&& scanner.channel == CHANNELS - 1
            &&& scanner.step(event).rank() == 0
            &&& scanner.step(event).indicator == scanner.step(event).table.any_pressed()
        },
        scanner.step(event).indicator != scanner.indicator <==> scanner.stage == Stage::Indicate,
{
    let channel = scanner.channel;
    match scanner.stage {
        Stage::Select => {
            let addressed = ScanModel { lines: line_pattern(channel), ..scanner };
            if addressed.table.populated(Bus::Am0, channel) {
                lemma_pressed_below_skip(scanner.table, 4 * channel, 4 * channel + 1);
            } else {
                lemma_pressed_below_skip(scanner.table, 4 * channel, 4 * channel + 2);
                lemma_seek_second_wf(addressed);
            }
        },
        Stage::Sample(bus) => {
            let raw = event->raw as int;
            match scanner.sampler.reading(raw) {
                None => {},
                Some(value) => {
                    let key = scanner.table.key(bus, channel)->0.update(value);
                    let table = scanner.table.update(bus, channel, value);
                    lemma_pressed_below_update(scanner.table, bus, channel, key);
                    assert(table.key(bus, channel) == Some(key));
                    let sampled = ScanModel {
                        sampler: scanner.sampler.feed(raw),
                        table,
                        any_pressed: scanner.any_pressed || table.pressed(bus, channel),
                        ..scanner
                    };
                    match bus {
                        Bus::Am0 => lemma_seek_second_wf(sampled),
                        Bus::Am1 => lemma_next_channel_wf(sampled),
                    }
                },
            }
        },
        Stage::Indicate => {
            lemma_pressed_below_all(scanner.table);
            assert(!pressed_below(scanner.table, 0));
        },
    }
}

/// A conversion is asked for only on a populated slot, and only while the
/// select lines address the channel of that slot.
pub proof fn lemma_convert_is_addressed(scanner: ScanModel)
    requires
        scanner.wf(),
        scanner.pending() is Convert,
    ensures
        scanner.table.populated(scanner.pending()->bus, scanner.pending()->Convert_channel as int),
        scanner.lines == line_pattern(scanner.pending()->Convert_channel as int),
        addressed(scanner.lines) == scanner.pending()->Convert_channel,
{
    lemma_pattern_addresses(scanner.channel);
}

/// The indicator is asked to change only to what the keys show, and only
/// when it shows something else.
pub proof fn lemma_indicate_is_change(scanner: ScanModel)
    requires
        scanner.wf(),
        scanner.pending() is Indicate,
    ensures
        scanner.pending()->level == indicator_level(scanner.table.any_pressed()),
        scanner.indicator != scanner.table.any_pressed(),
{
    lemma_pressed_below_all(scanner.table);
}

/// Over any run of steps the sweeps are counted upward, and within one
/// sweep the position never goes back. So the slots are sampled in
/// ascending order of their channels, the first bus before the second at
/// the same channel, and no slot is come back to.
pub proof fn lemma_run_order(scanner: ScanModel, events: Seq<Event>)
    requires
        scanner.wf(),
        scanner.admits(events),
    ensures
        scanner.run(events).wf(),
        scanner.run(events).sweeps >= scanner.sweeps,
        scanner.run(events).sweeps == scanner.sweeps ==> scanner.run(events).rank()
            >= scanner.rank(),
        scanner.run(events).sweeps == scanner.sweeps && scanner.pending() is Convert
            && scanner.run(events).pending() is Convert ==> slot_rank(
            scanner.pending()->bus,
            scanner.pending()->Convert_channel as int,
        ) <= slot_rank(
            scanner.run(events).pending()->bus,
            scanner.run(events).pending()->Convert_channel as int,
        ),
    decreases events.len(),
{
    if events.len() > 0 {
        lemma_run_order(scanner, events.drop_last());
        lemma_step_wf(scanner.run(events.drop_last()), events.last());
    }
}

} // verus!
