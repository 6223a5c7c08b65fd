//! Analog sampler: from single conversions to one representative reading.

use vstd::prelude::*;
use crate::consts::Value;

verus! {

/// Sum of a sequence.
pub open spec fn total(samples: Seq<int>) -> int
    decreases samples.len(),
{
    if samples.len() == 0 {
        0
    } else {
        total(samples.drop_last()) + samples.last()
    }
}

/// `a / n` for positive `n`, rounded toward zero.
pub open spec fn truncated_div(a: int, n: int) -> int {
    if a >= 0 {
        a / n
    } else {
        -((-a) / n)
    }
}

/// Arithmetic mean of a non-empty sequence, rounded toward zero.
pub open spec fn truncating_mean(samples: Seq<int>) -> int {
    truncated_div(total(samples), samples.len() as int)
}

/// What a sampler holds, as mathematical values.
pub struct SamplerModel {
    /// Whether each reading starts with one conversion that is thrown away.
    pub warmup: bool,
    /// How many conversions are averaged into one reading.
    pub samples: nat,
    /// Whether the next conversion is the one to throw away.
    pub discarding: bool,
    /// The conversions kept so far for the reading in progress.
    pub kept: Seq<int>,
}

impl SamplerModel {
    /// A sampler between two readings.
    pub open spec fn idle(warmup: bool, samples: nat) -> SamplerModel {
        SamplerModel { warmup, samples, discarding: warmup, kept: Seq::empty() }
    }

    /// At least one conversion is averaged, and a reading in progress still
    /// lacks at least one.
    pub open spec fn wf(self) -> bool {
        &&& self.samples >= 1
        &&& self.kept.len() < self.samples
        &&& self.discarding ==> self.warmup && self.kept.len() == 0
    }

    /// Whether no reading is in progress.
    pub open spec fn is_idle(self) -> bool {
        self == SamplerModel::idle(self.warmup, self.samples)
    }

    /// Number of conversions that one reading takes.
    pub open spec fn conversions(self) -> nat {
        if self.warmup {
            self.samples + 1
        } else {
            self.samples
        }
    }

    /// The reading that the conversion `raw` completes, if it completes one.
    pub open spec fn reading(self, raw: int) -> Option<int> {
        if !self.discarding && self.kept.len() + 1 == self.samples {
            Some(truncating_mean(self.kept.push(raw)))
        } else {
            None
        }
    }

    /// The sampler after the conversion `raw`.
    pub open spec fn feed(self, raw: int) -> SamplerModel {
        if self.discarding {
            SamplerModel { discarding: false, ..self }
        } else if self.kept.len() + 1 == self.samples {
            SamplerModel::idle(self.warmup, self.samples)
        } else {
            SamplerModel { kept: self.kept.push(raw), ..self }
        }
    }

    /// The sampler after a sequence of conversions, oldest first.
    pub open spec fn feed_all(self, raws: Seq<int>) -> SamplerModel
        decreases raws.len(),
    {
        if raws.len() == 0 {
            self
        } else {
            self.feed_all(raws.drop_last()).feed(raws.last())
        }
    }
}

/// Turns conversions into readings. One reading takes an optional first
/// conversion, which is thrown away to let the newly addressed channel
/// settle, and then a fixed number of conversions, of which it is the mean.
#[derive(Clone, Copy)]
pub struct Sampler {
    warmup: bool,
    samples: u8,
    discarding: bool,
    taken: u8,
    sum: i32,
    kept: Ghost<Seq<int>>,
}

impl View for Sampler {
    type V = SamplerModel;

    closed spec fn view(&self) -> SamplerModel {
        SamplerModel {
            warmup: self.warmup,
            samples: self.samples as nat,
            discarding: self.discarding,
            kept: self.kept@,
        }
    }
}

impl Sampler {
    /// The running sum stands for the conversions kept so far.
    pub closed spec fn wf(&self) -> bool {
        &&& self@.wf()
        &&& self.taken == self.kept@.len()
        &&& self.sum == total(self.kept@)
        &&& Value::MIN * self.taken <= self.sum <= Value::MAX * self.taken
    }

    /// A sampler in a valid state stands for a valid model.
    pub proof fn lemma_wf_view(&self)
        requires
            self.wf(),
        ensures
            self@.wf(),
    {
    }

    /// A sampler that averages `samples` conversions per reading, after
    /// one discarded conversion if `warmup` is set. There is none that
    /// averages no conversion at all.
    pub fn new(warmup: bool, samples: u8) -> (sampler: Option<Sampler>)
        ensures
            sampler is Some <==> samples >= 1,
            sampler matches Some(s) ==> s.wf() && s@ == SamplerModel::idle(warmup, samples as nat),
    {
        if samples == 0 {
            None
        } else {
            Some(
                Sampler {
                    warmup,
                    samples,
                    discarding: warmup,
                    taken: 0,
                    sum: 0,
                    kept: Ghost(Seq::empty()),
                },
            )
        }
    }

    /// The sampler that takes exactly one conversion per reading.
    pub fn single() -> (sampler: Sampler)
        ensures
            sampler.wf(),
            sampler@ == SamplerModel::idle(false, 1),
    {
        Sampler {
            warmup: false,
            samples: 1,
            discarding: false,
            taken: 0,
            sum: 0,
            kept: Ghost(Seq::empty()),
        }
    }

    /// Number of conversions that one reading takes.
    pub fn conversions(&self) -> (count: u16)
        ensures
            count == self@.conversions(),
    {
        if self.warmup {
            self.samples as u16 + 1
        } else {
            self.samples as u16
        }
    }

    /// Whether no reading is in progress.
    pub fn is_idle(&self) -> (idle: bool)
        requires
            self.wf(),
        ensures
            idle == self@.is_idle(),
    {
        proof {
            if self.taken == 0 {
                assert(self.kept@ =~= Seq::empty());
            }
        }
        self.discarding == self.warmup && self.taken == 0
    }

    /// Takes one conversion. Returns the reading once it is complete, and
    /// is then ready for the next one.
    pub fn feed(&mut self, conversion: Value) -> (reading: Option<Value>)
        requires
            old(self).wf(),
        ensures
            final(self).wf(),
            final(self)@ == old(self)@.feed(conversion as int),
            match reading {
                Some(value) => old(self)@.reading(conversion as int) == Some(value as int),
                None => old(self)@.reading(conversion as int).is_none(),
            },
    {
        if self.discarding {
            self.discarding = false;
            return None;
        }
        let sum: i32 = self.sum + conversion as i32;
        let taken: u8 = self.taken + 1;
        let ghost kept = self.kept@.push(conversion as int);
        proof {
            assert(kept.drop_last() =~= self.kept@);
            assert(total(kept) == sum);
            assert(Value::MIN * taken <= sum <= Value::MAX * taken) by (nonlinear_arith)
                requires
                    Value::MIN * self.taken <= self.sum <= Value::MAX * self.taken,
                    Value::MIN <= conversion <= Value::MAX,
                    sum == self.sum + conversion,
                    taken == self.taken + 1,
            ;
        }
        if taken == self.samples {
            let count: i32 = self.samples as i32;
            proof {
                lemma_truncated_div_bounds(sum as int, count as int, Value::MIN as int, Value::MAX as int);
            }
            let mean: i32 = sum / count;
            self.discarding = self.warmup;
            self.taken = 0;
            self.sum = 0;
            self.kept = Ghost(Seq::empty());
            Some(mean as Value)
        } else {
            self.taken = taken;
            self.sum = sum;
            self.kept = Ghost(kept);
            None
        }
    }
}

/// A sum of `n` values that each lie between `low` and `high` has a mean,
/// rounded toward zero, that lies between them too.
pub proof fn lemma_truncated_div_bounds(a: int, n: int, low: int, high: int)
    requires
        n >= 1,
        low <= 0 <= high,
        low * n <= a <= high * n,
    ensures
        low <= truncated_div(a, n) <= high,
{
    if a >= 0 {
        assert(a / n <= high) by (nonlinear_arith)
            requires
                n >= 1,
                0 <= a <= high * n,
        ;
        assert(a / n >= 0) by (nonlinear_arith)
            requires
                n >= 1,
                0 <= a,
        ;
    } else {
        assert((-low) * n == -(low * n)) by (nonlinear_arith);
        assert((-a) / n <= -low) by (nonlinear_arith)
            requires
                n >= 1,
                0 <= -a <= (-low) * n,
        ;
        assert((-a) / n >= 0) by (nonlinear_arith)
            requires
                n >= 1,
                0 <= -a,
        ;
    }
}

/// Where a reading stands after its first `n` conversions, while it is
/// still incomplete: the warm-up conversion is gone, the others are kept.
proof fn lemma_reading_progress(sampler: SamplerModel, raws: Seq<int>, n: int)
    requires
        sampler.wf(),
        sampler.is_idle(),
        0 <= n < sampler.conversions(),
        n <= raws.len(),
    ensures
        sampler.feed_all(raws.take(n)) == (SamplerModel {
            discarding: sampler.warmup && n == 0,
            kept: if sampler.warmup {
                if n == 0 {
                    Seq::empty()
                } else {
                    raws.subrange(1, n)
                }
            } else {
                raws.subrange(0, n)
            },
            ..sampler
        }),
    decreases n,
{
    if n == 0 {
        assert(raws.take(0).len() == 0);
        assert(raws.subrange(0, 0) =~= Seq::<int>::empty());
    } else {
        lemma_reading_progress(sampler, raws, n - 1);
        let before = sampler.feed_all(raws.take(n - 1));
        assert(raws.take(n).drop_last() =~= raws.take(n - 1));
        assert(raws.take(n).last() == raws[n - 1]);
        assert(sampler.feed_all(raws.take(n)) == before.feed(raws[n - 1]));
        if sampler.warmup {
            if n == 1 {
                assert(raws.subrange(1, 1) =~= Seq::<int>::empty());
            } else {
                assert(raws.subrange(1, n - 1).push(raws[n - 1]) =~= raws.subrange(1, n));
            }
        } else {
            assert(raws.subrange(0, n - 1).push(raws[n - 1]) =~= raws.subrange(0, n));
        }
    }
}

/// Starting between two readings, a sampler completes no reading before
/// it has taken as many conversions as one reading takes. The last of them
/// completes the reading, which is the mean, rounded toward zero, of all
/// of them but the warm-up conversion, and leaves the sampler between two
/// readings again.
pub proof fn lemma_reading_is_mean(sampler: SamplerModel, raws: Seq<int>)
    requires
        sampler.wf(),
        sampler.is_idle(),
        raws.len() == sampler.conversions(),
    ensures
        forall|n: int|
            #![trigger raws.take(n)]
            0 <= n < raws.len() - 1 ==> sampler.feed_all(raws.take(n)).reading(raws[n]).is_none(),
        sampler.feed_all(raws.drop_last()).reading(raws.last()) == Some(
            truncating_mean(
                if sampler.warmup {
                    raws.skip(1)
                } else {
                    raws
                },
            ),
        ),
        sampler.feed_all(raws) == sampler,
{
    assert forall|n: int| #![trigger raws.take(n)] 0 <= n < raws.len() - 1 implies sampler.feed_all(
        raws.take(n),
    ).reading(raws[n]).is_none() by {
        lemma_reading_progress(sampler, raws, n);
    }
    let last = raws.len() - 1;
    lemma_reading_progress(sampler, raws, last);
    assert(raws.take(last) =~= raws.drop_last());
    if sampler.warmup {
        if last == 0 {
        } else {
            assert(raws.subrange(1, last).push(raws.last()) =~= raws.skip(1));
        }
    } else {
        assert(raws.subrange(0, last).push(raws.last()) =~= raws);
    }
}

} // verus!
