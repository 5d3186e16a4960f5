//! The designs and slopes of the voice filters, and when a filter has to bring
//! its coefficients and delay registers up to date.
//!
//! A filter works out its coefficients from the design, the cutoff and the
//! resonance. That is costly, so a change only marks them as out of date, and
//! they are worked out again when the next sample is filtered. A change of the
//! design or the slope, and switching the filter on again, also clear the
//! delay registers; a change of cutoff or resonance keeps them, so that the
//! sound goes on without a click.

use vstd::prelude::*;

verus! {

/// What a filter lets through.
#[derive(Clone, Copy, Debug, PartialEq, Eq, Structural)]
pub enum Mode {
    ByPass,
    LowPass,
    HighPass,
    BandPass,
    BandStop,
}

/// How steeply a filter rolls off: 12 dB per octave is one biquad stage, 24 dB
/// per octave is two in series.
#[derive(Clone, Copy, Debug, PartialEq, Eq, Structural)]
pub enum Slope {
    Slope12,
    Slope24,
}

impl Slope {
    /// The number of biquad stages.
    pub open spec fn stage_count(self) -> nat {
        match self {
            Slope::Slope12 => 1,
            Slope::Slope24 => 2,
        }
    }

    /// The number of biquad stages that the slope stands for.
    pub fn stages(self) -> (r: usize)
        ensures
            r == self.stage_count(),
    {
        match self {
            Slope::Slope12 => 1,
            Slope::Slope24 => 2,
        }
    }
}

/// What a filter does with one sample.
#[derive(Clone, Copy, Debug, PartialEq, Eq, Structural)]
pub enum Step {
    /// Hand the sample on as it is.
    Pass,
    /// Filter the sample through `stages` biquad stages; before that, clear the
    /// delay registers and work out the coefficients, as far as asked.
    Run { reset_delays: bool, update_coeffs: bool, stages: usize },
}

/// The switches of a filter, and what of it is out of date.
#[derive(Clone, Copy, Debug, PartialEq, Eq, Structural)]
pub struct FilterControl {
    pub mode: Mode,
    pub slope: Slope,
    pub enabled: bool,
    /// The coefficients are out of date.
    pub invalid_coeffs: bool,
    /// The delay registers are to be cleared.
    pub invalid_delays: bool,
}

impl FilterControl {
    /// The filter hands samples on as they are: it is switched off, or has
    /// nothing to filter with.
    pub open spec fn passes(self) -> bool {
        !self.enabled || self.mode == Mode::ByPass
    }

    /// What the filter does with the next sample.
    pub open spec fn step(self) -> Step {
        if self.passes() {
            Step::Pass
        } else {
            Step::Run {
                reset_delays: self.invalid_delays,
                update_coeffs: self.invalid_coeffs,
                stages: self.slope.stage_count() as usize,
            }
        }
    }

    /// The filter after it has done that: up to date, if it has filtered.
    pub open spec fn stepped(self) -> FilterControl {
        if self.passes() {
            self
        } else {
            FilterControl { invalid_coeffs: false, invalid_delays: false, ..self }
        }
    }

    /// A filter that is switched on, with everything yet to be worked out.
    pub fn new(mode: Mode, slope: Slope) -> (r: FilterControl)
        ensures
            r == (FilterControl {
                mode,
                slope,
                enabled: true,
                invalid_coeffs: true,
                invalid_delays: true,
            }),
    {
        FilterControl { mode, slope, enabled: true, invalid_coeffs: true, invalid_delays: true }
    }

    /// A filter that hands every sample on as it is: switched on, with nothing
    /// to filter with, one stage, and everything yet to be worked out, so that
    /// it starts from cleared delay registers once it is given a design.
    pub fn bypass() -> (r: FilterControl)
        ensures
            r == (FilterControl {
                mode: Mode::ByPass,
                slope: Slope::Slope12,
                enabled: true,
                invalid_coeffs: true,
                invalid_delays: true,
            }),
            r.passes(),
    {
        FilterControl::new(Mode::ByPass, Slope::Slope12)
    }

    /// Asks for the delay registers to be cleared.
    pub fn reset(&mut self)
        ensures
            *final(self) == (FilterControl { invalid_delays: true, ..*old(self) }),
    {
        self.invalid_delays = true;
    }

    /// Switches the filter on or off. Where that is a change, the delay
    /// registers are cleared before the next sample is filtered.
    pub fn set_enabled(&mut self, enabled: bool)
        ensures
            *final(self) == if old(self).enabled == enabled {
                *old(self)
            } else {
                FilterControl { enabled, invalid_delays: true, ..*old(self) }
            },
    {
        if self.enabled != enabled {
            self.enabled = enabled;
            self.invalid_delays = true;
        }
    }

    /// Sets the design: coefficients and delay registers are out of date.
    pub fn set_mode(&mut self, mode: Mode)
        ensures
            *final(self) == (FilterControl {
                mode,
                invalid_coeffs: true,
                invalid_delays: true,
                ..*old(self)
            }),
    {
        self.mode = mode;
        self.invalid_coeffs = true;
        self.invalid_delays = true;
    }

    /// Sets the slope: coefficients and delay registers are out of date.
    pub fn set_slope(&mut self, slope: Slope)
        ensures
            *final(self) == (FilterControl {
                slope,
                invalid_coeffs: true,
                invalid_delays: true,
                ..*old(self)
            }),
    {
        self.slope = slope;
        self.invalid_coeffs = true;
        self.invalid_delays = true;
    }

    /// Notes that the cutoff or the resonance has changed: the coefficients
    /// are out of date, the delay registers stay as they are.
    pub fn retune(&mut self)
        ensures
            *final(self) == (FilterControl { invalid_coeffs: true, ..*old(self) }),
    {
        self.invalid_coeffs = true;
    }

    /// What to do with the next sample; the filter is up to date afterwards,
    /// if it has filtered.
    pub fn process(&mut self) -> (r: Step)
        ensures
            r == old(self).step(),
            *final(self) == old(self).stepped(),
    {
        if !self.enabled || self.mode == Mode::ByPass {
            return Step::Pass;
        }
        let step = Step::Run {
            reset_delays: self.invalid_delays,
            update_coeffs: self.invalid_coeffs,
            stages: self.slope.stages(),
        };
        self.invalid_coeffs = false;
        self.invalid_delays = false;
        step
    }
}

/// Once a filter has filtered a sample, it filters the next without clearing
/// or working out anything, as long as nothing is changed in between.
pub proof fn lemma_up_to_date_after_a_sample(f: FilterControl)
    requires
        !f.passes(),
    ensures
        f.stepped().step() == (Step::Run {
            reset_delays: false,
            update_coeffs: false,
            stages: f.slope.stage_count() as usize,
        }),
        f.stepped().stepped() == f.stepped(),
{
}

} // verus!
