//! The scan table: one optional key per channel on each of the two buses.

use vstd::prelude::*;
use crate::consts::{Value, CHANNELS};
use crate::filter::{KeyModel, KeyState};

verus! {

/// One of the two analog buses behind the shared multiplexer address.
#[derive(Clone, Copy, Debug, PartialEq, Eq, Structural)]
pub enum Bus {
    /// The bus that is sampled first at every channel.
    Am0,
    /// The bus that is sampled second at every channel.
    Am1,
}

/// What a slot of the table holds, as mathematical values.
pub open spec fn key_view(key: Option<KeyState>) -> Option<KeyModel> {
    match key {
        Some(key) => Some(key@),
        None => None,
    }
}

/// What a scan table holds, as mathematical values.
pub struct TableModel {
    /// The keys of the first bus, by channel.
    pub am0: Seq<Option<KeyModel>>,
    /// The keys of the second bus, by channel.
    pub am1: Seq<Option<KeyModel>>,
}

impl TableModel {
    /// Each bus has one slot per channel.
    pub open spec fn wf(self) -> bool {
        self.am0.len() == CHANNELS && self.am1.len() == CHANNELS
    }

    /// The table without any key.
    pub open spec fn empty() -> TableModel {
        TableModel {
            am0: Seq::new(CHANNELS as nat, |channel: int| None),
            am1: Seq::new(CHANNELS as nat, |channel: int| None),
        }
    }

    /// The slots of one bus, by channel.
    pub open spec fn slots(self, bus: Bus) -> Seq<Option<KeyModel>> {
        match bus {
            Bus::Am0 => self.am0,
            Bus::Am1 => self.am1,
        }
    }

    /// The key at a channel of a bus, if the channel is populated.
    pub open spec fn key(self, bus: Bus, channel: int) -> Option<KeyModel> {
        self.slots(bus)[channel]
    }

    /// Whether a channel of a bus has a key.
    pub open spec fn populated(self, bus: Bus, channel: int) -> bool {
        self.key(bus, channel) is Some
    }

    /// The table with `key` at a channel of a bus.
    pub open spec fn with_key(self, bus: Bus, channel: int, key: KeyModel) -> TableModel {
        match bus {
            Bus::Am0 => TableModel { am0: self.am0.update(channel, Some(key)), ..self },
            Bus::Am1 => TableModel { am1: self.am1.update(channel, Some(key)), ..self },
        }
    }

    /// The table after the key at a populated channel has taken a reading.
    pub open spec fn update(self, bus: Bus, channel: int, raw: int) -> TableModel {
        self.with_key(bus, channel, self.key(bus, channel)->0.update(raw))
    }

    /// Whether the key at a channel of a bus is there and pressed.
    pub open spec fn pressed(self, bus: Bus, channel: int) -> bool {
        self.key(bus, channel) matches Some(key) && key.pressed
    }

    /// Whether any key of the table is pressed.
    pub open spec fn any_pressed(self) -> bool {
        exists|bus: Bus, channel: int|
            0 <= channel < CHANNELS && #[trigger] self.pressed(bus, channel)
    }
}

/// The keys of both buses, by channel.
#[derive(Clone, Copy, Debug)]
pub struct ScanTable {
    am0: [Option<KeyState>; 16],
    am1: [Option<KeyState>; 16],
}

impl View for ScanTable {
    type V = TableModel;

    closed spec fn view(&self) -> TableModel {
        TableModel {
            am0: self.am0@.map_values(|key: Option<KeyState>| key_view(key)),
            am1: self.am1@.map_values(|key: Option<KeyState>| key_view(key)),
        }
    }
}

impl ScanTable {
    /// A table of the given keys.
    pub fn new(am0: [Option<KeyState>; 16], am1: [Option<KeyState>; 16]) -> (table: ScanTable)
        ensures
            table@.wf(),
            table@.am0 == am0@.map_values(|key: Option<KeyState>| key_view(key)),
            table@.am1 == am1@.map_values(|key: Option<KeyState>| key_view(key)),
    {
        ScanTable { am0, am1 }
    }

    /// Every table has one slot per channel on each bus.
    pub proof fn lemma_view_wf(&self)
        ensures
            self@.wf(),
    {
    }

    /// A table without any key.
    pub fn empty() -> (table: ScanTable)
        ensures
            table@ == TableModel::empty(),
    {
        let table = ScanTable { am0: [None;16], am1: [None;16] };
        assert(table@.am0 =~= TableModel::empty().am0);
        assert(table@.am1 =~= TableModel::empty().am1);
        table
    }

    /// The key at a channel of a bus, if the channel is populated.
    pub fn key(&self, bus: Bus, channel: u8) -> (key: Option<KeyState>)
        requires
            channel < CHANNELS,
        ensures
            key_view(key) == self@.key(bus, channel as int),
    {
        match bus {
            Bus::Am0 => self.am0[channel as usize],
            Bus::Am1 => self.am1[channel as usize],
        }
    }

    /// Whether a channel of a bus has a key.
    pub fn populated(&self, bus: Bus, channel: u8) -> (populated: bool)
        requires
            channel < CHANNELS,
        ensures
            populated == self@.populated(bus, channel as int),
    {
        self.key(bus, channel).is_some()
    }

    /// Puts a key at a channel of a bus.
    pub fn insert(&mut self, bus: Bus, channel: u8, key: KeyState)
        requires
            channel < CHANNELS,
        ensures
            final(self)@ == old(self)@.with_key(bus, channel as int, key@),
    {
        match bus {
            Bus::Am0 => {
                self.am0[channel as usize] = Some(key);
                assert(self@.am0 =~= old(self)@.am0.update(channel as int, Some(key@)));
            },
            Bus::Am1 => {
                self.am1[channel as usize] = Some(key);
                assert(self@.am1 =~= old(self)@.am1.update(channel as int, Some(key@)));
            },
        }
    }

    /// Hands a reading to the key at a populated channel of a bus, and
    /// says whether that key is pressed afterwards.
    pub fn update(&mut self, bus: Bus, channel: u8, raw: Value) -> (pressed: bool)
        requires
            channel < CHANNELS,
            old(self)@.populated(bus, channel as int),
        ensures
            final(self)@ == old(self)@.update(bus, channel as int, raw as int),
            pressed == final(self)@.pressed(bus, channel as int),
    {
        match self.key(bus, channel) {
            Some(mut key) => {
                key.update(raw);
                self.insert(bus, channel, key);
                key.pressed()
            },
            None => false,
        }
    }
}

} // verus!
