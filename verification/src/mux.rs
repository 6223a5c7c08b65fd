//! Multiplexer controller: from a channel index to the select lines.

use vstd::prelude::*;
use vstd::arithmetic::power2::{pow2, lemma2_to64};
use crate::consts::{CHANNELS, SELECT_LINES};

verus! {

/// Level of a digital line.
#[derive(Clone, Copy, Debug, PartialEq, Eq, Structural)]
pub enum Level {
    Low,
    High,
}

impl Level {
    /// `High` for `true`, `Low` for `false`.
    pub fn of(high: bool) -> (level: Level)
        ensures
            level == (if high { Level::High } else { Level::Low }),
    {
        if high {
            Level::High
        } else {
            Level::Low
        }
    }

    /// Whether the line is driven high.
    pub fn is_high(&self) -> (high: bool)
        ensures
            high == (*self == Level::High),
    {
        match self {
            Level::High => true,
            Level::Low => false,
        }
    }
}

/// Bit `line` of `index`, bit 0 being the least significant.
pub open spec fn address_bit(index: int, line: int) -> bool {
    (index / pow2(line as nat) as int) % 2 == 1
}

/// The level of select line `line` while channel `index` is addressed:
/// high exactly when bit `line` of `index` is set.
pub open spec fn line_level(index: int, line: int) -> Level {
    if address_bit(index, line) {
        Level::High
    } else {
        Level::Low
    }
}

/// The levels of all select lines while channel `index` is addressed.
pub open spec fn line_pattern(index: int) -> Seq<Level> {
    Seq::new(SELECT_LINES as nat, |line: int| line_level(index, line))
}

/// What a high line contributes to the address.
pub open spec fn line_weight(level: Level, line: int) -> int {
    if level == Level::High {
        pow2(line as nat) as int
    } else {
        0
    }
}

/// The channel that four select lines address.
pub open spec fn addressed(lines: Seq<Level>) -> int {
    line_weight(lines[0], 0) + line_weight(lines[1], 1) + line_weight(lines[2], 2) + line_weight(
        lines[3],
        3,
    )
}

/// Extracts bit `line` of a channel index.
pub fn index_bit(index: u8, line: usize) -> (bit: bool)
    requires
        line < SELECT_LINES,
    ensures
        bit == address_bit(index as int, line as int),
{
    proof {
        lemma2_to64();
        if line == 0 {
            assert(((index >> line) & 1 == 1) == ((index / 1) % 2 == 1)) by (bit_vector)
                requires
                    line == 0,
            ;
        } else if line == 1 {
            assert(((index >> line) & 1 == 1) == ((index / 2) % 2 == 1)) by (bit_vector)
                requires
                    line == 1,
            ;
        } else if line == 2 {
            assert(((index >> line) & 1 == 1) == ((index / 4) % 2 == 1)) by (bit_vector)
                requires
                    line == 2,
            ;
        } else {
            assert(((index >> line) & 1 == 1) == ((index / 8) % 2 == 1)) by (bit_vector)
                requires
                    line == 3,
            ;
        }
    }
    (index >> line) & 1 == 1
}

/// The select-line pattern for a channel, line 0 first.
pub fn address_lines(index: u8) -> (lines: [Level; 4])
    requires
        index < CHANNELS,
    ensures
        lines@ == line_pattern(index as int),
{
    let mut lines = [Level::Low;4];
    let mut line: usize = 0;
    while line < SELECT_LINES
        invariant
            line <= SELECT_LINES,
            forall|below: int| 0 <= below < line ==> lines@[below] == line_level(index as int, below),
        decreases SELECT_LINES - line,
    {
        lines[line] = Level::of(index_bit(index, line));
        line += 1;
    }
    assert(lines@ =~= line_pattern(index as int));
    lines
}

/// The four select lines of the multiplexer, as they are driven.
#[derive(Clone, Copy, Debug)]
pub struct Mux {
    select: [Level; 4],
}

impl Mux {
    /// The levels of the select lines, line 0 first.
    pub closed spec fn lines(&self) -> Seq<Level> {
        self.select@
    }

    /// The channel that the select lines address.
    pub open spec fn address(&self) -> int {
        addressed(self.lines())
    }

    /// A multiplexer with every select line low, which addresses channel 0.
    pub fn new() -> (mux: Mux)
        ensures
            mux.lines() == line_pattern(0),
    {
        let mux = Mux { select: [Level::Low;4] };
        proof {
            lemma2_to64();
            assert(mux.select@ =~= line_pattern(0));
        }
        mux
    }

    /// Addresses channel `index`: line `i` goes high exactly when bit `i`
    /// of `index` is set.
    pub fn select(&mut self, index: u8)
        requires
            index < CHANNELS,
        ensures
            final(self).lines() == line_pattern(index as int),
    {
        self.select = address_lines(index);
    }

    /// The level of one select line.
    pub fn line(&self, line: usize) -> (level: Level)
        requires
            line < SELECT_LINES,
        ensures
            level == self.lines()[line as int],
    {
        self.select[line]
    }

    /// The levels of the select lines, line 0 first.
    pub fn levels(&self) -> (levels: [Level; 4])
        ensures
            levels@ == self.lines(),
    {
        self.select
    }
}

/// The pattern of a channel addresses that channel and no other: the
/// lines, read as a binary number with line 0 least significant, give the
/// index back.
pub proof fn lemma_pattern_addresses(index: int)
    requires
        0 <= index < CHANNELS,
    ensures
        line_pattern(index).len() == SELECT_LINES,
        forall|line: int|
            0 <= line < SELECT_LINES ==> (#[trigger] line_pattern(index)[line] == Level::High
                <==> address_bit(index, line)),
        addressed(line_pattern(index)) == index,
{
    lemma2_to64();
    let lines = line_pattern(index);
    assert(lines[0] == line_level(index, 0));
    assert(lines[1] == line_level(index, 1));
    assert(lines[2] == line_level(index, 2));
    assert(lines[3] == line_level(index, 3));
    assert(index == (index / 1) % 2 + 2 * ((index / 2) % 2) + 4 * ((index / 4) % 2) + 8 * ((index
        / 8) % 2));
}

/// Two channels with the same pattern are the same channel.
pub proof fn lemma_pattern_injective(a: int, b: int)
    requires
        0 <= a < CHANNELS,
        0 <= b < CHANNELS,
        line_pattern(a) == line_pattern(b),
    ensures
        a == b,
{
    lemma_pattern_addresses(a);
    lemma_pattern_addresses(b);
}

} // verus!
