use keyberon::key_code::KeyCode;
use pipad::filter::KeyState;
use pipad::mux::{Level, Mux};
use pipad::sampler::Sampler;
use pipad::scan::{indicator_line, Action, Event, Scanner};
use pipad::table::{Bus, ScanTable};

const REST: i16 = 2000;

fn key(code: KeyCode) -> Option<KeyState> {
    Some(KeyState::new(code, REST))
}

fn keypad() -> ScanTable {
    let mut am0: [Option<KeyState>; 16] = [None; 16];
    let mut am1: [Option<KeyState>; 16] = [None; 16];
    am0[0] = key(KeyCode::Kp0);
    am0[1] = key(KeyCode::Kp1);
    am0[6] = key(KeyCode::Kp7);
    am0[15] = key(KeyCode::Kp2);
    am1[0] = key(KeyCode::KpDot);
    am1[2] = key(KeyCode::Kp6);
    am1[15] = key(KeyCode::KpEnter);
    ScanTable::new(am0, am1)
}

fn two_keys() -> ScanTable {
    let mut am0: [Option<KeyState>; 16] = [None; 16];
    let mut am1: [Option<KeyState>; 16] = [None; 16];
    am0[3] = key(KeyCode::Kp4);
    am1[3] = key(KeyCode::Kp5);
    ScanTable::new(am0, am1)
}

/// Runs one sweep with the reading that `raw` gives for each slot, and
/// returns the actions of the sweep, in order.
fn sweep(scanner: &mut Scanner, raw: &dyn Fn(u8, Bus) -> i16) -> Vec<Action> {
    let mut actions = Vec::new();
    assert_eq!(scanner.pending(), Action::Select { channel: 0 });
    loop {
        let action = scanner.pending();
        actions.push(action);
        let event = match action {
            Action::Select { .. } | Action::Indicate { .. } => Event::Done,
            Action::Convert { channel, bus } => Event::Converted { raw: raw(channel, bus) },
        };
        assert!(scanner.accepts(event));
        let next = scanner.step(event);
        assert_eq!(next, scanner.pending());
        if next == (Action::Select { channel: 0 }) {
            return actions;
        }
    }
}

fn indications(actions: &[Action]) -> Vec<Level> {
    let mut levels = Vec::new();
    for action in actions {
        if let Action::Indicate { level } = action {
            levels.push(*level);
        }
    }
    levels
}

#[test]
fn indicator_line_is_active_low() {
    assert_eq!(indicator_line(true), Level::Low);
    assert_eq!(indicator_line(false), Level::High);
}

#[test]
fn scanner_starts_by_addressing_channel_zero() {
    let scanner = Scanner::new(keypad(), Mux::new(), Sampler::single());
    assert_eq!(scanner.pending(), Action::Select { channel: 0 });
    assert!(!scanner.indicator_active());
    assert!(scanner.accepts(Event::Done));
    assert!(!scanner.accepts(Event::Converted { raw: REST }));
}

#[test]
fn sweep_addresses_every_channel_once_in_ascending_order() {
    let mut scanner = Scanner::new(keypad(), Mux::new(), Sampler::single());
    for _ in 0..3 {
        let actions = sweep(&mut scanner, &|_, _| REST);
        let mut selected = Vec::new();
        for action in &actions {
            if let Action::Select { channel } = action {
                selected.push(*channel);
            }
        }
        assert_eq!(selected, (0u8..16).collect::<Vec<u8>>());
    }
}

#[test]
fn sampling_pairs_ascend_by_channel_with_the_first_bus_first() {
    let mut scanner = Scanner::new(keypad(), Mux::new(), Sampler::single());
    let actions = sweep(&mut scanner, &|_, _| REST);
    let mut pairs = Vec::new();
    for action in &actions {
        if let Action::Convert { channel, bus } = action {
            pairs.push((*channel, *bus));
        }
    }
    assert_eq!(
        pairs,
        vec![
            (0, Bus::Am0),
            (0, Bus::Am1),
            (1, Bus::Am0),
            (2, Bus::Am1),
            (6, Bus::Am0),
            (15, Bus::Am0),
            (15, Bus::Am1),
        ]
    );
    for pair in pairs.windows(2) {
        let (before, after) = (pair[0], pair[1]);
        assert!(
            before.0 < after.0 || (before.0 == after.0 && before.1 == Bus::Am0 && after.1 == Bus::Am1)
        );
    }
}

#[test]
fn every_conversion_follows_the_selection_of_its_channel() {
    let mut scanner = Scanner::new(keypad(), Mux::new(), Sampler::new(true, 2).unwrap());
    let actions = sweep(&mut scanner, &|_, _| REST);
    let mut addressed = None;
    let mut conversions = 0;
    for action in &actions {
        match action {
            Action::Select { channel } => addressed = Some(*channel),
            Action::Convert { channel, .. } => {
                assert_eq!(addressed, Some(*channel));
                conversions += 1;
            },
            Action::Indicate { .. } => {},
        }
    }
    assert_eq!(conversions, 7 * 3);
}

#[test]
fn second_bus_is_sampled_without_reselecting() {
    let mut scanner = Scanner::new(two_keys(), Mux::new(), Sampler::single());
    let actions = sweep(&mut scanner, &|_, _| REST);
    let at_three: Vec<Action> = actions
        .iter()
        .copied()
        .skip_while(|action| *action != (Action::Select { channel: 3 }))
        .take(4)
        .collect();
    assert_eq!(
        at_three,
        vec![
            Action::Select { channel: 3 },
            Action::Convert { channel: 3, bus: Bus::Am0 },
            Action::Convert { channel: 3, bus: Bus::Am1 },
            Action::Select { channel: 4 },
        ]
    );
    assert_eq!(actions.len(), 16 + 2);
}

#[test]
fn empty_table_is_swept_without_sampling() {
    let mut scanner = Scanner::new(ScanTable::empty(), Mux::new(), Sampler::single());
    for _ in 0..2 {
        let actions = sweep(&mut scanner, &|_, _| REST);
        assert_eq!(actions.len(), 16);
        for (channel, action) in actions.iter().enumerate() {
            assert_eq!(*action, Action::Select { channel: channel as u8 });
        }
    }
    assert!(!scanner.indicator_active());
}

#[test]
fn reading_reaches_the_key_of_its_slot_only() {
    let mut scanner = Scanner::new(two_keys(), Mux::new(), Sampler::single());
    sweep(&mut scanner, &|_, bus| if bus == Bus::Am0 { 1900 } else { 2004 });
    let first = scanner.table().key(Bus::Am0, 3).unwrap();
    let second = scanner.table().key(Bus::Am1, 3).unwrap();
    assert_eq!(first.filtered(), 1975);
    assert!(first.pressed());
    assert_eq!(first.code(), KeyCode::Kp4);
    assert_eq!(second.filtered(), 2001);
    assert!(!second.pressed());
    assert_eq!(second.code(), KeyCode::Kp5);
    assert!(scanner.table().key(Bus::Am0, 4).is_none());
    assert!(scanner.table().populated(Bus::Am1, 3));
    assert!(!scanner.table().populated(Bus::Am1, 4));
}

#[test]
fn key_takes_the_mean_of_the_conversions_after_the_warmup() {
    let mut am0: [Option<KeyState>; 16] = [None; 16];
    am0[5] = key(KeyCode::Kp9);
    let table = ScanTable::new(am0, [None; 16]);
    let mut scanner = Scanner::new(table, Mux::new(), Sampler::new(true, 2).unwrap());
    for _ in 0..5 {
        assert_eq!(scanner.step(Event::Done), Action::Select { channel: scanner_channel(&scanner) });
    }
    let convert = Action::Convert { channel: 5, bus: Bus::Am0 };
    assert_eq!(scanner.step(Event::Done), convert);
    assert_eq!(scanner.step(Event::Converted { raw: 0 }), convert);
    assert_eq!(scanner.step(Event::Converted { raw: 1950 }), convert);
    assert_eq!(scanner.table().key(Bus::Am0, 5).unwrap().filtered(), REST);
    assert_eq!(scanner.step(Event::Converted { raw: 1971 }), Action::Select { channel: 6 });
    let sampled = scanner.table().key(Bus::Am0, 5).unwrap();
    assert_eq!(sampled.filtered(), 1990);
    assert!(sampled.pressed());
}

fn scanner_channel(scanner: &Scanner) -> u8 {
    match scanner.pending() {
        Action::Select { channel } => channel,
        Action::Convert { channel, .. } => channel,
        Action::Indicate { .. } => 15,
    }
}

#[test]
fn stray_event_is_passed_over() {
    let mut scanner = Scanner::new(two_keys(), Mux::new(), Sampler::single());
    assert_eq!(scanner.step(Event::Converted { raw: 0 }), Action::Select { channel: 0 });
    assert_eq!(scanner.step(Event::Done), Action::Select { channel: 1 });
    assert_eq!(scanner.step(Event::Done), Action::Select { channel: 2 });
    assert_eq!(scanner.step(Event::Done), Action::Select { channel: 3 });
    let convert = Action::Convert { channel: 3, bus: Bus::Am0 };
    assert_eq!(scanner.step(Event::Done), convert);
    assert!(!scanner.accepts(Event::Done));
    assert_eq!(scanner.step(Event::Done), convert);
    assert_eq!(scanner.table().key(Bus::Am0, 3).unwrap().filtered(), REST);
    assert_eq!(
        scanner.step(Event::Converted { raw: REST }),
        Action::Convert { channel: 3, bus: Bus::Am1 }
    );
}

#[test]
fn indicator_stays_inactive_while_all_keys_are_released() {
    let mut scanner = Scanner::new(keypad(), Mux::new(), Sampler::single());
    for _ in 0..4 {
        let actions = sweep(&mut scanner, &|_, _| REST);
        assert!(indications(&actions).is_empty());
        assert!(!scanner.indicator_active());
    }
}

#[test]
fn indicator_flips_once_per_change_of_the_aggregate() {
    let mut scanner = Scanner::new(keypad(), Mux::new(), Sampler::single());
    let resting = |_: u8, _: Bus| REST;
    let held = |channel: u8, bus: Bus| if channel == 6 && bus == Bus::Am0 { 1900 } else { REST };
    let let_go = |channel: u8, bus: Bus| if channel == 6 && bus == Bus::Am0 { 2100 } else { REST };

    assert!(indications(&sweep(&mut scanner, &resting)).is_empty());
    assert!(!scanner.indicator_active());

    let pressed = sweep(&mut scanner, &held);
    assert_eq!(indications(&pressed), vec![Level::Low]);
    assert_eq!(pressed.last(), Some(&Action::Indicate { level: Level::Low }));
    assert!(scanner.indicator_active());
    assert!(scanner.table().key(Bus::Am0, 6).unwrap().pressed());

    for _ in 0..3 {
        assert!(indications(&sweep(&mut scanner, &held)).is_empty());
        assert!(scanner.indicator_active());
    }

    let mut flips = Vec::new();
    for _ in 0..8 {
        let was_pressed = scanner.table().key(Bus::Am0, 6).unwrap().pressed();
        let levels = indications(&sweep(&mut scanner, &let_go));
        let is_pressed = scanner.table().key(Bus::Am0, 6).unwrap().pressed();
        assert_eq!(levels.len(), if was_pressed && !is_pressed { 1 } else { 0 });
        assert_eq!(scanner.indicator_active(), is_pressed);
        flips.extend(levels);
    }
    assert_eq!(flips, vec![Level::High]);
    assert!(!scanner.indicator_active());
    assert!(!scanner.table().key(Bus::Am0, 6).unwrap().pressed());

    for _ in 0..3 {
        assert!(indications(&sweep(&mut scanner, &resting)).is_empty());
        assert!(!scanner.indicator_active());
    }
}

#[test]
fn indicator_stays_active_while_another_key_is_held() {
    let mut scanner = Scanner::new(keypad(), Mux::new(), Sampler::single());
    let both = |channel: u8, _: Bus| if channel == 0 { 1900 } else { REST };
    let one = |channel: u8, bus: Bus| match (channel, bus) {
        (0, Bus::Am0) => 1900,
        (0, Bus::Am1) => 2100,
        _ => REST,
    };
    assert_eq!(indications(&sweep(&mut scanner, &both)), vec![Level::Low]);
    assert!(indications(&sweep(&mut scanner, &one)).is_empty());
    assert!(scanner.indicator_active());
    assert!(scanner.table().key(Bus::Am0, 0).unwrap().pressed());
    assert!(!scanner.table().key(Bus::Am1, 0).unwrap().pressed());
}

#[test]
fn key_pressed_before_the_first_sweep_shows_after_it() {
    let mut held = KeyState::new(KeyCode::KpPlus, REST);
    held.update(1900);
    assert!(held.pressed());
    let mut am1: [Option<KeyState>; 16] = [None; 16];
    am1[14] = Some(held);
    let mut scanner = Scanner::new(ScanTable::new([None; 16], am1), Mux::new(), Sampler::single());
    assert!(!scanner.indicator_active());
    let actions = sweep(&mut scanner, &|_, _| 1900);
    assert_eq!(indications(&actions), vec![Level::Low]);
    assert!(scanner.indicator_active());
}
