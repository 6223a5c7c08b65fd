use pipad::consts::{CHANNELS, SELECT_LINES};
use pipad::mux::{address_lines, index_bit, Level, Mux};

#[test]
fn multiplexer_has_sixteen_channels_on_four_lines() {
    assert_eq!(CHANNELS, 16);
    assert_eq!(SELECT_LINES, 4);
    assert_eq!(1usize << SELECT_LINES, CHANNELS);
}

#[test]
fn level_follows_the_boolean() {
    assert_eq!(Level::of(true), Level::High);
    assert_eq!(Level::of(false), Level::Low);
    assert!(Level::High.is_high());
    assert!(!Level::Low.is_high());
}

#[test]
fn index_bit_extracts_each_bit() {
    for index in 0u8..16 {
        for line in 0usize..4 {
            assert_eq!(index_bit(index, line), (index >> line) & 1 == 1);
            assert_eq!(index_bit(index, line), (index / (1 << line)) % 2 == 1);
        }
    }
    assert!(index_bit(0b0100, 2));
    assert!(!index_bit(0b0100, 1));
}

#[test]
fn address_lines_are_the_bits_least_significant_first() {
    let (low, high) = (Level::Low, Level::High);
    assert_eq!(address_lines(0), [low, low, low, low]);
    assert_eq!(address_lines(1), [high, low, low, low]);
    assert_eq!(address_lines(2), [low, high, low, low]);
    assert_eq!(address_lines(6), [low, high, high, low]);
    assert_eq!(address_lines(8), [low, low, low, high]);
    assert_eq!(address_lines(15), [high, high, high, high]);
}

#[test]
fn select_sets_line_high_iff_bit_set() {
    let mut mux = Mux::new();
    for index in 0u8..16 {
        mux.select(index);
        for line in 0usize..4 {
            assert_eq!(mux.line(line).is_high(), (index >> line) & 1 == 1, "index {index} line {line}");
        }
        assert_eq!(mux.levels(), address_lines(index));
    }
}

#[test]
fn new_mux_addresses_channel_zero() {
    let mux = Mux::new();
    assert_eq!(mux.levels(), [Level::Low; 4]);
    assert_eq!(mux.levels(), address_lines(0));
}

#[test]
fn reselecting_a_channel_changes_nothing() {
    let mut mux = Mux::new();
    mux.select(9);
    let before = mux.levels();
    mux.select(9);
    assert_eq!(mux.levels(), before);
}

#[test]
fn every_channel_has_its_own_pattern() {
    for a in 0u8..16 {
        for b in 0u8..16 {
            assert_eq!(address_lines(a) == address_lines(b), a == b);
        }
        let mut decoded = 0u8;
        for (line, level) in address_lines(a).iter().enumerate() {
            if level.is_high() {
                decoded += 1 << line;
            }
        }
        assert_eq!(decoded, a);
    }
}
