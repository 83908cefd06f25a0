//! Settings of the program bus: equalizer, blend, gain and ceiling. Gains of
//! bands are millionths of a decibel, everything else is millionths of one.

use vstd::prelude::*;

use crate::audio::level::clamp;
use crate::audio::level;

verus! {

/// Number of equalizer bands.
pub const EQ_BAND_COUNT: usize = 12;

/// Loudness curve of a blend.
#[derive(Debug, Clone, Copy, PartialEq, Eq, Structural)]
pub enum CrossfadeCurve {
    /// Constant power: no dip in the middle.
    EqualPower,
    /// Straight.
    Linear,
}

impl Default for CrossfadeCurve {
    fn default() -> (r: Self)
        ensures
            r == CrossfadeCurve::EqualPower,
    {
        CrossfadeCurve::EqualPower
    }
}

/// One band of the equalizer.
#[derive(Debug, Clone, Copy, PartialEq, Eq, Structural)]
pub struct EqBand {
    /// Boost or cut.
    pub gain_udb: i64,
    /// Resonance, in millionths.
    pub q: i64,
}

/// A band that changes nothing anyone would hear.
pub open spec fn neutral(b: EqBand) -> bool {
    -50_000 < b.gain_udb < 50_000
}

/// A flat band.
pub open spec fn flat_band() -> EqBand {
    EqBand { gain_udb: 0, q: 1_000_000 }
}

impl Default for EqBand {
    fn default() -> (r: Self)
        ensures
            r == flat_band(),
    {
        EqBand { gain_udb: 0, q: 1_000_000 }
    }
}

impl EqBand {
    /// Whether the band changes nothing anyone would hear.
    pub fn is_neutral(&self) -> (r: bool)
        ensures
            r == neutral(*self),
    {
        -50_000 < self.gain_udb && self.gain_udb < 50_000
    }
}

/// Settings of the equalizer.
#[derive(Debug, Clone)]
pub struct EqChain {
    pub bands: Vec<EqBand>,
    pub rate: u32,
    pub enabled: bool,
}

/// All bands flat.
pub open spec fn flat() -> Seq<EqBand> {
    Seq::new(EQ_BAND_COUNT as nat, |i: int| flat_band())
}

/// All bands flat.
fn flat_bands() -> (v: Vec<EqBand>)
    ensures
        v@ == flat(),
{
    let mut v: Vec<EqBand> = Vec::new();
    let mut i: usize = 0;
    while i < EQ_BAND_COUNT
        invariant
            i <= EQ_BAND_COUNT,
            v@ == Seq::new(i as nat, |j: int| flat_band()),
        decreases EQ_BAND_COUNT - i,
    {
        v.push(EqBand::default());
        i = i + 1;
        assert(v@ =~= Seq::new(i as nat, |j: int| flat_band()));
    }
    v
}

impl EqChain {
    /// Every band is there.
    pub open spec fn wf(self) -> bool {
        self.bands@.len() == EQ_BAND_COUNT
    }

    /// The program passes unchanged: off, or every band neutral.
    pub open spec fn bypassed(self) -> bool {
        !self.enabled || forall|i: int| 0 <= i < self.bands@.len() ==> neutral(#[trigger] self.bands@[i])
    }

    /// A flat equalizer that is off.
    pub fn new(rate: u32) -> (r: Self)
        ensures
            r.wf(),
            r.bands@ == flat(),
            r.rate == rate,
            !r.enabled,
    {
        EqChain { bands: flat_bands(), rate, enabled: false }
    }

    /// Whether the program passes unchanged.
    pub fn is_bypassed(&self) -> (r: bool)
        ensures
            r == self.bypassed(),
    {
        if !self.enabled {
            return true;
        }
        let mut i: usize = 0;
        while i < self.bands.len()
            invariant
                i <= self.bands@.len(),
                self.enabled,
                forall|j: int| 0 <= j < i ==> neutral(#[trigger] self.bands@[j]),
            decreases self.bands@.len() - i,
        {
            if !self.bands[i].is_neutral() {
                assert(!neutral(self.bands@[i as int]));
                return false;
            }
            i = i + 1;
        }
        true
    }

    /// Switch the equalizer on or off.
    pub fn set_enabled(&mut self, on: bool)
        ensures
            *final(self) == (EqChain { enabled: on, ..*old(self) }),
    {
        self.enabled = on;
    }

    /// Set the gain of one band, up to twelve decibels either way. A band that
    /// there is not is left alone. Tells whether the band was set.
    pub fn set_band(&mut self, band: usize, gain_udb: i64) -> (r: bool)
        requires
            old(self).wf(),
        ensures
            final(self).wf(),
            final(self).rate == old(self).rate,
            final(self).enabled == old(self).enabled,
            r == (band < EQ_BAND_COUNT),
            final(self).bands@ == (if band < EQ_BAND_COUNT {
                old(self).bands@.update(
                    band as int,
                    EqBand {
                        gain_udb: level::clamped(gain_udb as int, -12_000_000, 12_000_000) as i64,
                        q: old(self).bands@[band as int].q,
                    },
                )
            } else {
                old(self).bands@
            }),
    {
        if band >= EQ_BAND_COUNT {
            return false;
        }
        let q: i64 = self.bands[band].q;
        let gain: i64 = clamp(gain_udb, -12_000_000, 12_000_000);
        self.bands.set(band, EqBand { gain_udb: gain, q });
        true
    }

    /// Make every band flat.
    pub fn reset(&mut self)
        ensures
            final(self).wf(),
            final(self).bands@ == flat(),
            final(self).rate == old(self).rate,
            final(self).enabled == old(self).enabled,
    {
        self.bands = flat_bands();
    }

    /// Set the rate. Tells whether the filters have to be built anew.
    pub fn set_rate(&mut self, rate: u32) -> (rebuild: bool)
        ensures
            *final(self) == (EqChain { rate, ..*old(self) }),
            rebuild == (old(self).rate != rate),
    {
        let rebuild = self.rate != rate;
        self.rate = rate;
        rebuild
    }
}

/// Settings of the program bus.
#[derive(Debug)]
pub struct Mixer {
    /// Master gain.
    pub gain: i64,
    /// Nothing for all of the first deck, one for all of the second.
    pub crossfade: i64,
    pub curve: CrossfadeCurve,
    /// Loudest sample that leaves the bus, for the clip and for the limiter.
    pub ceiling: i64,
    pub eq: EqChain,
}

impl Mixer {
    /// A bus with a master gain.
    pub fn new(gain: i64) -> (r: Self)
        ensures
            r.gain == level::clamped(gain as int, 0, 1_500_000),
            r.crossfade == 0,
            r.curve == CrossfadeCurve::EqualPower,
            r.ceiling == 990_000,
            r.eq.wf(),
            r.eq.bands@ == flat(),
            r.eq.rate == 48000,
            !r.eq.enabled,
    {
        Mixer {
            gain: clamp(gain, 0, 1_500_000),
            crossfade: 0,
            curve: CrossfadeCurve::EqualPower,
            ceiling: 990_000,
            eq: EqChain::new(48000),
        }
    }

    /// Set the master gain, up to one and a half.
    pub fn set_gain(&mut self, gain: i64)
        ensures
            *final(self) == (Mixer {
                gain: level::clamped(gain as int, 0, 1_500_000) as i64,
                ..*old(self)
            }),
    {
        self.gain = clamp(gain, 0, 1_500_000);
    }

    /// Set the place of the blend, from nothing to one.
    pub fn set_crossfade(&mut self, x: i64)
        ensures
            *final(self) == (Mixer {
                crossfade: level::clamped(x as int, 0, 1_000_000) as i64,
                ..*old(self)
            }),
    {
        self.crossfade = clamp(x, 0, 1_000_000);
    }

    /// Set the curve of the blend.
    pub fn set_curve(&mut self, curve: CrossfadeCurve)
        ensures
            *final(self) == (Mixer { curve, ..*old(self) }),
    {
        self.curve = curve;
    }

    /// Set the ceiling, from a tenth to one.
    pub fn set_ceiling(&mut self, c: i64)
        ensures
            *final(self) == (Mixer {
                ceiling: level::clamped(c as int, 100_000, 1_000_000) as i64,
                ..*old(self)
            }),
    {
        self.ceiling = clamp(c, 100_000, 1_000_000);
    }
}

/// A flat equalizer never changes the program, whether it is on or off, and
/// neither does one that is off, whatever its bands.
pub proof fn flat_or_off_is_bypassed(eq: EqChain)
    requires
        eq.bands@ == flat() || !eq.enabled,
    ensures
        eq.bypassed(),
{
}

/// A band is heard exactly from a twentieth of a decibel on, boost and cut
/// alike, and one band that is heard is enough to change the program of an
/// equalizer that is on.
pub proof fn one_band_is_heard(eq: EqChain, i: int)
    requires
        0 <= i < eq.bands@.len(),
    ensures
        neutral(eq.bands@[i]) <==> !(eq.bands@[i].gain_udb >= 50_000 || eq.bands@[i].gain_udb
            <= -50_000),
        eq.enabled && (eq.bands@[i].gain_udb >= 50_000 || eq.bands@[i].gain_udb <= -50_000)
            ==> !eq.bypassed(),
        flat().len() == 12,
        flat()[0] == flat_band(),
        neutral(flat_band()),
{
    if eq.enabled && (eq.bands@[i].gain_udb >= 50_000 || eq.bands@[i].gain_udb <= -50_000) {
        assert(!neutral(eq.bands@[i]));
    }
}

} // verus!
