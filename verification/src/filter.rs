//! Per-key signal filter: exponential smoothing and hysteresis.

use vstd::prelude::*;
use keyberon::key_code::KeyCode;
use crate::consts::{Value, PRESS_DELTA_THRESHOLD, RELEASE_DELTA_THRESHOLD, KEYPRESS_FILTER_SHIFT};

verus! {

/// `keyberon::key_code::KeyCode`, the HID usage that names a logical key.
/// Nothing is claimed of it: the filter carries the code of its key along
/// and never looks inside.
#[verifier::external_type_specification]
#[verifier::external_body]
pub struct ExKeyCode(KeyCode);

/// `x / 4`, rounded toward negative infinity.
pub open spec fn floor_quarter(x: int) -> int {
    x / 4
}

/// `x / 4`, rounded toward zero.
pub open spec fn truncated_quarter(x: int) -> int {
    if x >= 0 {
        x / 4
    } else {
        -((-x) / 4)
    }
}

/// The smoothed reading after one more sample: a quarter of the way from
/// `filtered` toward `raw`, the distance rounded toward negative infinity.
pub open spec fn smoothed(filtered: int, raw: int) -> int {
    filtered + floor_quarter(raw - filtered)
}

/// What a key's filter holds, as mathematical values.
pub struct KeyModel {
    /// Smoothed reading of the unpressed key, fixed when the key is created.
    pub resting: int,
    /// Smoothed reading now.
    pub filtered: int,
    /// Whether the key counts as held down.
    pub pressed: bool,
    /// The logical key.
    pub code: KeyCode,
}

impl KeyModel {
    /// A key right after its first sample: released, and at rest.
    pub open spec fn initial(code: KeyCode, sample: int) -> KeyModel {
        KeyModel { resting: sample, filtered: sample, pressed: false, code }
    }

    /// Deviation of the smoothed reading from the resting baseline.
    pub open spec fn delta(self) -> int {
        self.filtered - self.resting
    }

    /// The key after one more raw reading.
    pub open spec fn update(self, raw: int) -> KeyModel {
        let filtered = smoothed(self.filtered, raw);
        let delta = filtered - self.resting;
        let pressed = if self.pressed {
            delta <= RELEASE_DELTA_THRESHOLD
        } else {
            delta < PRESS_DELTA_THRESHOLD
        };
        KeyModel { filtered, pressed, ..self }
    }

    /// The key after a sequence of raw readings, oldest first.
    pub open spec fn feed(self, raws: Seq<int>) -> KeyModel
        decreases raws.len(),
    {
        if raws.len() == 0 {
            self
        } else {
            self.feed(raws.drop_last()).update(raws.last())
        }
    }
}

/// The distance the smoothed reading moves for one sample:
/// `(raw - filtered) >> KEYPRESS_FILTER_SHIFT`, with an arithmetic shift.
pub fn shift_step(filtered: Value, raw: Value) -> (step: i32)
    ensures
        step == floor_quarter(raw - filtered),
{
    let distance: i32 = raw as i32 - filtered as i32;
    assert(distance >> 2 == distance / 4) by (bit_vector);
    distance >> KEYPRESS_FILTER_SHIFT
}

/// One step of the exponential moving average.
pub fn smooth(filtered: Value, raw: Value) -> (next: Value)
    ensures
        next == smoothed(filtered as int, raw as int),
{
    let next: i32 = filtered as i32 + shift_step(filtered, raw);
    next as Value
}

/// State of one populated channel.
#[derive(Clone, Copy, Debug)]
pub struct KeyState {
    resting: Value,
    filtered: Value,
    pressed: bool,
    code: KeyCode,
}

impl View for KeyState {
    type V = KeyModel;

    closed spec fn view(&self) -> KeyModel {
        KeyModel {
            resting: self.resting as int,
            filtered: self.filtered as int,
            pressed: self.pressed,
            code: self.code,
        }
    }
}

impl KeyState {
    /// A key at rest. The first sample seeds both the baseline and the
    /// smoothed reading, unsmoothed.
    pub fn new(code: KeyCode, resting_raw: Value) -> (key: KeyState)
        ensures
            key@ == KeyModel::initial(code, resting_raw as int),
    {
        KeyState { resting: resting_raw, filtered: resting_raw, pressed: false, code }
    }

    /// Takes one raw reading: smooths it in, then presses or releases the
    /// key if the deviation from rest has left the hysteresis band.
    pub fn update(&mut self, raw: Value)
        ensures
            final(self)@ == old(self)@.update(raw as int),
    {
        self.filtered = smooth(self.filtered, raw);
        let delta: i32 = self.filtered as i32 - self.resting as i32;
        if !self.pressed && delta < PRESS_DELTA_THRESHOLD as i32 {
            self.pressed = true;
        } else if self.pressed && delta > RELEASE_DELTA_THRESHOLD as i32 {
            self.pressed = false;
        }
    }

    /// The baseline that the key was created with.
    pub fn resting(&self) -> (resting: Value)
        ensures
            resting == self@.resting,
    {
        self.resting
    }

    /// The smoothed reading.
    pub fn filtered(&self) -> (filtered: Value)
        ensures
            filtered == self@.filtered,
    {
        self.filtered
    }

    /// Whether the key counts as held down.
    pub fn pressed(&self) -> (pressed: bool)
        ensures
            pressed == self@.pressed,
    {
        self.pressed
    }

    /// The logical key.
    pub fn code(&self) -> (code: KeyCode)
        ensures
            code == self@.code,
    {
        self.code
    }

    /// Deviation of the smoothed reading from the resting baseline.
    pub fn delta(&self) -> (delta: i32)
        ensures
            delta == self@.delta(),
    {
        self.filtered as i32 - self.resting as i32
    }
}

/// Dividing by four with rounding toward negative infinity gives the one
/// quotient whose remainder lies in `0..4`. It agrees with rounding toward
/// zero on every numerator that is non-negative or a multiple of four, and
/// is one less on every other.
pub proof fn lemma_floor_quarter(x: int)
    ensures
        4 * floor_quarter(x) <= x < 4 * floor_quarter(x) + 4,
        x >= 0 || x % 4 == 0 ==> floor_quarter(x) == truncated_quarter(x),
        x < 0 && x % 4 != 0 ==> floor_quarter(x) == truncated_quarter(x) - 1,
{
}

/// For a smoothed reading `f` and a raw reading `r` of at most thirteen
/// bits with sign, the arithmetic right shift of `r - f` by the smoothing
/// exponent is `r - f` divided by four and rounded toward negative
/// infinity, also where `r - f` is negative.
pub proof fn lemma_shift_is_floor_division(f: int, r: int)
    requires
        -4096 <= f <= 4095,
        -4096 <= r <= 4095,
    ensures
        ((r - f) as i32) >> 2 == floor_quarter(r - f),
        ((r - f) as i16) >> 2 == floor_quarter(r - f),
        4 * floor_quarter(r - f) <= r - f < 4 * floor_quarter(r - f) + 4,
{
    let wide: i32 = (r - f) as i32;
    assert(wide >> 2 == wide / 4) by (bit_vector);
    let narrow: i16 = (r - f) as i16;
    assert(narrow >> 2 == narrow / 4) by (bit_vector);
}

/// The smoothed reading never overshoots: it ends between where it was and
/// the sample, and it stands still only when the sample is less than four
/// counts above it.
pub proof fn lemma_smoothed_between(filtered: int, raw: int)
    ensures
        raw >= filtered ==> filtered <= smoothed(filtered, raw) <= raw,
        raw <= filtered ==> raw <= smoothed(filtered, raw) <= filtered,
        smoothed(filtered, raw) == filtered <==> 0 <= raw - filtered < 4,
{
}

/// One update decides by the state the key is in: a released key is
/// pressed exactly when the new deviation is below the press threshold, a
/// pressed key is released exactly when it is above the release threshold.
/// So one update never both presses and releases, and a deviation inside
/// the band between the two thresholds changes nothing.
pub proof fn lemma_update_hysteresis(key: KeyModel, raw: int)
    ensures
        key.update(raw).resting == key.resting,
        key.update(raw).code == key.code,
        key.update(raw).filtered == smoothed(key.filtered, raw),
        !key.pressed ==> (key.update(raw).pressed <==> key.update(raw).delta()
            < PRESS_DELTA_THRESHOLD),
        key.pressed ==> (!key.update(raw).pressed <==> key.update(raw).delta()
            > RELEASE_DELTA_THRESHOLD),
        PRESS_DELTA_THRESHOLD <= key.update(raw).delta() <= RELEASE_DELTA_THRESHOLD
            ==> key.update(raw).pressed == key.pressed,
{
}

/// No sequence of readings moves the baseline or renames the key.
pub proof fn lemma_feed_keeps_baseline(key: KeyModel, raws: Seq<int>)
    ensures
        key.feed(raws).resting == key.resting,
        key.feed(raws).code == key.code,
    decreases raws.len(),
{
    if raws.len() > 0 {
        lemma_feed_keeps_baseline(key, raws.drop_last());
    }
}

/// A pressed key stays pressed through every sequence of readings whose
/// deviations all stay at or below the release threshold, however close
/// to it they come.
pub proof fn lemma_pressed_holds(key: KeyModel, raws: Seq<int>)
    requires
        key.pressed,
        forall|n: int|
            #![trigger raws.take(n)]
            1 <= n <= raws.len() ==> key.feed(raws.take(n)).delta() <= RELEASE_DELTA_THRESHOLD,
    ensures
        key.feed(raws).pressed,
    decreases raws.len(),
{
    if raws.len() > 0 {
        let shorter = raws.drop_last();
        assert forall|n: int| #![trigger shorter.take(n)] 1 <= n <= shorter.len() implies key.feed(
            shorter.take(n),
        ).delta() <= RELEASE_DELTA_THRESHOLD by {
            assert(shorter.take(n) =~= raws.take(n));
        }
        lemma_pressed_holds(key, shorter);
        assert(raws.take(raws.len() as int) =~= raws);
    }
}

/// A released key stays released through every sequence of readings whose
/// deviations all stay at or above the press threshold.
pub proof fn lemma_released_holds(key: KeyModel, raws: Seq<int>)
    requires
        !key.pressed,
        forall|n: int|
            #![trigger raws.take(n)]
            1 <= n <= raws.len() ==> key.feed(raws.take(n)).delta() >= PRESS_DELTA_THRESHOLD,
    ensures
        !key.feed(raws).pressed,
    decreases raws.len(),
{
    if raws.len() > 0 {
        let shorter = raws.drop_last();
        assert forall|n: int| #![trigger shorter.take(n)] 1 <= n <= shorter.len() implies key.feed(
            shorter.take(n),
        ).delta() >= PRESS_DELTA_THRESHOLD by {
            assert(shorter.take(n) =~= raws.take(n));
        }
        lemma_released_holds(key, shorter);
        assert(raws.take(raws.len() as int) =~= raws);
    }
}

} // verus!
