//! The gain ramp that hides a model switch.
//!
//! Switching models cannot be a plain swap: the outgoing model's output stops
//! mid-waveform and the incoming one starts from a cold pipeline. So the ramp
//! fades the outgoing model down, holds silence for exactly as long as the
//! incoming one needs to fill its pipeline, and fades the incoming one up.

use vstd::prelude::*;

verus! {

/// State of a switch ramp.
#[derive(Debug, Clone, Copy, PartialEq, Eq, Structural)]
pub enum Phase {
    /// No switch in progress; the active stage plays at unity.
    Idle,
    /// Fading the outgoing stage out.
    FadingOut,
    /// Silent while the incoming stage fills its pipeline.
    Priming,
    /// Fading the incoming stage in.
    FadingIn,
}

/// A point on the raised-cosine curve: silence at position zero, unity at
/// `position == length`, and unity on a curve without length.
#[derive(Debug, Clone, Copy, PartialEq, Eq, Structural)]
pub struct RampGain {
    /// Samples from silence.
    pub position: usize,
    /// Samples from silence to unity.
    pub length: usize,
}

/// What a ramp remembers.
#[derive(Debug, Clone, Copy, PartialEq, Eq, Structural)]
pub struct RampState {
    /// The phase.
    pub phase: Phase,
    /// Samples in each fade.
    pub fade: usize,
    /// Samples remaining in the phase.
    pub remaining: usize,
    /// Silence to hold once the fade-out completes.
    pub priming: usize,
    /// Set when the fade-out finishes, cleared once the caller has swapped.
    pub swap_pending: bool,
}

impl RampState {
    /// Whether something remains of the phase.
    pub open spec fn within(self) -> bool {
        match self.phase {
            Phase::Idle => true,
            Phase::FadingOut => 0 < self.remaining <= self.fade,
            Phase::Priming => 0 < self.remaining <= self.priming,
            Phase::FadingIn => 0 < self.remaining <= self.fade,
        }
    }

    /// Samples from silence of the gain applied last: the fade length stands
    /// for unity.
    pub open spec fn level(self) -> int {
        match self.phase {
            Phase::Idle => self.fade as int,
            Phase::FadingOut => self.remaining as int,
            Phase::Priming => 0,
            Phase::FadingIn => self.fade - self.remaining,
        }
    }

    /// The state once the fade-out has reached silence.
    pub open spec fn faded_out(self) -> RampState {
        if self.priming > 0 {
            RampState {
                swap_pending: true,
                phase: Phase::Priming,
                remaining: self.priming,
                ..self
            }
        } else if self.fade > 0 {
            RampState { swap_pending: true, phase: Phase::FadingIn, remaining: self.fade, ..self }
        } else {
            RampState { swap_pending: true, phase: Phase::Idle, remaining: 0, ..self }
        }
    }

    /// The state once a switch has begun: the fade-out starts from the current
    /// gain.
    pub open spec fn begun(self, priming: usize) -> RampState {
        let start = RampState {
            phase: Phase::FadingOut,
            remaining: self.level() as usize,
            priming,
            swap_pending: false,
            ..self
        };
        if self.level() == 0 {
            start.faded_out()
        } else {
            start
        }
    }

    /// The state once one sample has passed.
    pub open spec fn ticked(self) -> RampState {
        let rest = RampState { remaining: (self.remaining - 1) as usize, ..self };
        match self.phase {
            Phase::Idle => self,
            Phase::FadingOut => if rest.remaining == 0 {
                rest.faded_out()
            } else {
                rest
            },
            Phase::Priming => if rest.remaining > 0 {
                rest
            } else if self.fade > 0 {
                RampState { phase: Phase::FadingIn, remaining: self.fade, ..self }
            } else {
                RampState { phase: Phase::Idle, ..rest }
            },
            Phase::FadingIn => if rest.remaining == 0 {
                RampState { phase: Phase::Idle, ..rest }
            } else {
                rest
            },
        }
    }

    /// The gain of the next sample. Silence is silence also where the fades
    /// have no length.
    pub open spec fn gain(self) -> RampGain {
        match self.phase {
            Phase::Idle => RampGain { position: self.fade, length: self.fade },
            Phase::FadingOut => RampGain {
                position: (self.remaining - 1) as usize,
                length: self.fade,
            },
            Phase::Priming => RampGain {
                position: 0,
                length: if self.fade > 0 {
                    self.fade
                } else {
                    1
                },
            },
            Phase::FadingIn => RampGain {
                position: (self.fade - (self.remaining - 1)) as usize,
                length: self.fade,
            },
        }
    }

    /// Samples until the ramp is idle again.
    pub open spec fn to_go(self) -> int {
        match self.phase {
            Phase::Idle => 0,
            Phase::FadingOut => self.remaining + self.priming + self.fade,
            Phase::Priming => self.remaining + self.fade,
            Phase::FadingIn => self.remaining as int,
        }
    }
}

/// Produces the gain envelope for a switch, one sample at a time.
///
/// The caller multiplies its output by [`SwitchRamp::next_gain`] and swaps
/// stages when [`SwitchRamp::wants_swap`] reports that the fade-out has
/// finished.
#[derive(Debug)]
pub struct SwitchRamp {
    state: RampState,
}

impl View for SwitchRamp {
    type V = RampState;

    closed spec fn view(&self) -> RampState {
        self.state
    }
}

impl SwitchRamp {
    /// Whether something remains of the phase.
    pub open spec fn wf(&self) -> bool {
        self@.within()
    }

    /// Creates an idle ramp whose fades last `fade_samples`.
    pub fn new(fade_samples: usize) -> (ramp: Self)
        ensures
            ramp.wf(),
            ramp@ == (RampState {
                phase: Phase::Idle,
                fade: fade_samples,
                remaining: 0,
                priming: 0,
                swap_pending: false,
            }),
    {
        SwitchRamp {
            state: RampState {
                phase: Phase::Idle,
                fade: fade_samples,
                remaining: 0,
                priming: 0,
                swap_pending: false,
            },
        }
    }

    /// Length of each fade, in samples.
    pub fn fade_samples(&self) -> (fade: usize)
        ensures
            fade == self@.fade,
    {
        self.state.fade
    }

    /// Whether a switch is in progress.
    pub fn is_switching(&self) -> (switching: bool)
        ensures
            switching == !(self@.phase is Idle),
    {
        !matches!(self.state.phase, Phase::Idle)
    }

    /// Begins a switch to a stage that needs `priming_samples` of silence
    /// before it produces anything.
    ///
    /// Starting a switch while one is in progress restarts the ramp from
    /// wherever the gain currently is. Where the fades have no length, the
    /// stages change in silence if there is any to hold, and at once if not.
    pub fn begin(&mut self, priming_samples: usize)
        requires
            old(self).wf(),
        ensures
            final(self).wf(),
            final(self)@ == old(self)@.begun(priming_samples),
    {
        self.state.priming = priming_samples;
        self.state.swap_pending = false;
        self.state.remaining = match self.state.phase {
            Phase::Idle => self.state.fade,
            Phase::FadingOut => self.state.remaining,
            Phase::Priming => 0,
            Phase::FadingIn => self.state.fade - self.state.remaining,
        };
        self.state.phase = Phase::FadingOut;
        if self.state.remaining == 0 {
            self.finish_fade_out();
        }
    }

    /// Whether the caller should swap in the pending stage now.
    ///
    /// True for exactly one call, after the fade-out reaches zero.
    pub fn wants_swap(&mut self) -> (wanted: bool)
        ensures
            wanted == old(self)@.swap_pending,
            final(self)@ == (RampState { swap_pending: false, ..old(self)@ }),
    {
        let wanted: bool = self.state.swap_pending;
        self.state.swap_pending = false;
        wanted
    }

    /// Advances one sample and returns the gain to apply to it.
    pub fn next_gain(&mut self) -> (gain: RampGain)
        requires
            old(self).wf(),
        ensures
            final(self).wf(),
            gain == old(self)@.gain(),
            final(self)@ == old(self)@.ticked(),
    {
        let fade: usize = self.state.fade;
        match self.state.phase {
            Phase::Idle => RampGain { position: fade, length: fade },
            Phase::FadingOut => {
                self.state.remaining = self.state.remaining - 1;
                let gain = RampGain { position: self.state.remaining, length: fade };
                if self.state.remaining == 0 {
                    self.finish_fade_out();
                }
                gain
            },
            Phase::Priming => {
                self.state.remaining = self.state.remaining - 1;
                if self.state.remaining == 0 {
                    if fade > 0 {
                        self.state.phase = Phase::FadingIn;
                        self.state.remaining = fade;
                    } else {
                        self.state.phase = Phase::Idle;
                    }
                }
                let length: usize = if fade > 0 {
                    fade
                } else {
                    1
                };
                RampGain { position: 0, length }
            },
            Phase::FadingIn => {
                self.state.remaining = self.state.remaining - 1;
                let gain = RampGain { position: fade - self.state.remaining, length: fade };
                if self.state.remaining == 0 {
                    self.state.phase = Phase::Idle;
                }
                gain
            },
        }
    }

    /// Moves from the fade-out into whichever phase comes next.
    fn finish_fade_out(&mut self)
        requires
            old(self)@.remaining == 0,
        ensures
            final(self)@ == old(self)@.faded_out(),
    {
        self.state.swap_pending = true;
        if self.state.priming > 0 {
            self.state.phase = Phase::Priming;
            self.state.remaining = self.state.priming;
        } else if self.state.fade > 0 {
            self.state.phase = Phase::FadingIn;
            self.state.remaining = self.state.fade;
        } else {
            self.state.phase = Phase::Idle;
        }
    }
}

/// The envelope of fades that have a length never jumps: each gain is at most
/// one sample of the fade away from the one before it, and the gain of a sample
/// is the level that the next one starts from.
pub proof fn law_envelope_has_no_step(state: RampState)
    requires
        state.within(),
        state.fade > 0,
    ensures
        state.ticked().within(),
        -1 <= state.gain().position - state.level() <= 1,
        state.ticked().level() == state.gain().position,
        0 <= state.gain().position <= state.gain().length,
{
}

/// Starting a switch at any moment, also while one is in progress, leaves the
/// gain where it is.
pub proof fn law_restart_does_not_jump(state: RampState, priming: usize)
    requires
        state.within(),
        state.fade > 0,
    ensures
        state.begun(priming).within(),
        state.begun(priming).level() == state.level(),
{
}

/// Stages are swapped in silence: a swap is asked for only at the moment when
/// the gain reaches zero, and on a ramp whose fades have a length.
pub proof fn law_swaps_in_silence(state: RampState, priming: usize)
    requires
        state.within(),
        state.fade > 0,
    ensures
        !state.swap_pending && state.ticked().swap_pending ==> state.ticked().level() == 0
            && state.gain().position == 0,
        state.begun(priming).swap_pending ==> state.begun(priming).level() == 0,
{
}

/// A switch takes the fade-out, the silence and the fade-in, and then the ramp
/// is idle: every sample brings it one closer to that.
pub proof fn law_a_switch_takes_its_time(state: RampState, priming: usize)
    requires
        state.within(),
    ensures
        state.phase is Idle ==> state.begun(priming).to_go() == 2 * state.fade + priming,
        !(state.phase is Idle) ==> state.ticked().to_go() == state.to_go() - 1,
        state.to_go() == 0 <==> state.phase is Idle,
{
}

/// The ramp after `count` samples.
pub open spec fn passed(state: RampState, count: nat) -> RampState
    decreases count,
{
    if count == 0 {
        state
    } else {
        passed(state, (count - 1) as nat).ticked()
    }
}

/// The whole envelope of a switch that begins on an idle ramp: it falls from
/// unity to silence in one fade, holds silence for exactly as long as the
/// incoming stage needs, rises back to unity in another fade, and stays there.
pub proof fn law_a_switch_dips_and_returns(state: RampState, priming: usize, count: nat)
    requires
        state.phase is Idle,
        state.fade > 0,
    ensures
        ({
            let fade = state.fade as int;
            let ramp = passed(state.begun(priming), count);
            &&& ramp.within()
            &&& ramp.fade == fade
            &&& ramp.gain().length == fade
            &&& ramp.gain().position == (if count < fade {
                fade - 1 - count
            } else if count < fade + priming {
                0
            } else if count < fade + priming + fade {
                count - fade - priming + 1
            } else {
                fade
            })
            &&& ramp.phase is Idle <==> count >= 2 * fade + priming
        }),
{
    lemma_switch_phases(state, priming, count);
}

/// The phase and what remains of it, after `count` samples of a switch.
proof fn lemma_switch_phases(state: RampState, priming: usize, count: nat)
    requires
        state.phase is Idle,
        state.fade > 0,
    ensures
        ({
            let fade = state.fade as int;
            let ramp = passed(state.begun(priming), count);
            &&& ramp.fade == state.fade
            &&& ramp.priming == priming
            &&& if count < fade {
                ramp.phase is FadingOut && ramp.remaining == fade - count
            } else if count < fade + priming {
                ramp.phase is Priming && ramp.remaining == fade + priming - count
            } else if count < fade + priming + fade {
                ramp.phase is FadingIn && ramp.remaining == fade + priming + fade - count
            } else {
                ramp.phase is Idle
            }
        }),
    decreases count,
{
    if count > 0 {
        lemma_switch_phases(state, priming, (count - 1) as nat);
    }
}

} // verus!
