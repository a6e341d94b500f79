use vstd::prelude::*;

verus! {

use vstd::arithmetic::div_mod::{
    lemma_basic_div,
    lemma_fundamental_div_mod,
    lemma_hoist_over_denominator,
    lemma_mod_bound,
};

/// Ticks of the quantized playback clock per second of wall time.
pub const TICKS_PER_SECOND: u64 = 60;

/// A playback position: a non-negative count of fixed-rate clock ticks,
/// sixty per second. Immutable value type; never mutated in place.
#[derive(PartialEq, Eq, Structural, Clone, Copy, Debug)]
pub struct Time {
    frame: u32,
}

/// Tick count of a wall-clock duration given in nanoseconds: the rate-based
/// floor, widened by half a nanosecond. Durations arrive quantized to whole
/// nanoseconds, so each count stands for the half-nanosecond-centered
/// interval around it; the widening keeps a duration that is itself the
/// nearest-nanosecond image of a tick boundary on that boundary, while any
/// duration half a nanosecond or more below a boundary still rounds down,
/// never up.
pub open spec fn ticks_of_nanos(nanos: int) -> int {
    (nanos * (TICKS_PER_SECOND as int) + 30) / 1_000_000_000
}

/// Nanoseconds of a whole tick count at sixty ticks per second, rounded to
/// the nearest nanosecond.
pub open spec fn nanos_of_ticks(t: int) -> int {
    (t * 1_000_000_000 + 30) / 60
}

impl Time {
    /// The tick count this value stands for.
    pub closed spec fn ticks(&self) -> int {
        self.frame as int
    }

    /// A position given directly as a tick (frame) count.
    pub fn from_frame(frame: u32) -> (t: Time)
        ensures
            t.ticks() == frame,
    {
        Time { frame }
    }

    /// The raw tick count.
    pub fn frame(&self) -> (f: u32)
        ensures
            f == self.ticks(),
    {
        self.frame
    }

    /// Positions add tick-wise; the sum must stay representable.
    pub fn add(self, rhs: Time) -> (t: Time)
        requires
            self.ticks() + rhs.ticks() <= u32::MAX,
        ensures
            t.ticks() == self.ticks() + rhs.ticks(),
    {
        Time { frame: self.frame + rhs.frame }
    }

    /// Positions subtract tick-wise; underflow is a programmer error and is
    /// ruled out here rather than handled.
    pub fn sub(self, rhs: Time) -> (t: Time)
        requires
            rhs.ticks() <= self.ticks(),
        ensures
            t.ticks() == self.ticks() - rhs.ticks(),
    {
        Time { frame: self.frame - rhs.frame }
    }

    /// The position reached after the given wall-clock duration, in
    /// nanoseconds, rounding toward zero.
    pub fn from_nanos(nanos: u64) -> (t: Time)
        requires
            ticks_of_nanos(nanos as int) <= u32::MAX,
        ensures
            t.ticks() == ticks_of_nanos(nanos as int),
    {
        let ticks: u128 = ((nanos as u128) * (TICKS_PER_SECOND as u128) + 30) / 1_000_000_000;
        Time { frame: ticks as u32 }
    }

    /// The wall-clock duration of this position, in nanoseconds.
    pub fn to_nanos(&self) -> (nanos: u64)
        ensures
            nanos == nanos_of_ticks(self.ticks()),
    {
        ((self.frame as u64) * 1_000_000_000 + 30) / 60
    }
}

/// The mathematical state of a seekable time source: the nanosecond reading
/// of the wall clock at the last anchoring, the accumulated playback offset
/// in nanoseconds, and the paused flag. All transitions re-anchor the
/// reference to the instant at which they happen, so later elapsed queries
/// measure forward from there.
#[derive(PartialEq, Eq, Structural, Clone, Copy, Debug)]
pub struct TimeState {
    pub reference_nanos: u64,
    pub offset_nanos: u64,
    pub paused: bool,
}

impl TimeState {
    /// The freshly constructed state: anchored at `now`, offset zero,
    /// running.
    pub open spec fn spec_new(now: u64) -> TimeState {
        TimeState { reference_nanos: now, offset_nanos: 0, paused: false }
    }

    /// Elapsed playback position when the wall clock reads `now`: the offset
    /// alone while paused, otherwise the offset plus the time since the
    /// anchor.
    pub open spec fn spec_elapsed(self, now: int) -> int {
        if self.paused {
            self.offset_nanos as int
        } else {
            self.offset_nanos + (now - self.reference_nanos)
        }
    }

    /// Seeking re-anchors at `now` and replaces the offset with the target
    /// position; the paused flag is untouched.
    pub open spec fn spec_seek(self, now: u64, pos: u64) -> TimeState {
        TimeState { reference_nanos: now, offset_nanos: pos, paused: self.paused }
    }

    /// Pausing or unpausing folds the current elapsed value into the offset,
    /// re-anchors at `now`, and flips the flag.
    pub open spec fn spec_set_paused(self, now: u64, paused: bool) -> TimeState {
        TimeState {
            reference_nanos: now,
            offset_nanos: self.spec_elapsed(now as int) as u64,
            paused,
        }
    }

    /// Executable elapsed query. A wall-clock reading earlier than the
    /// anchor counts as no time passed, and a sum beyond the representable
    /// range saturates; under the intended conditions the result is exactly
    /// `spec_elapsed`.
    pub fn elapsed_at(self, now: u64) -> (r: u64)
        ensures
            now >= self.reference_nanos && self.spec_elapsed(now as int) <= u64::MAX ==> r
                == self.spec_elapsed(now as int),
            self.paused ==> r == self.offset_nanos,
            r >= self.offset_nanos,
    {
        if self.paused {
            self.offset_nanos
        } else {
            let delta = if now >= self.reference_nanos {
                now - self.reference_nanos
            } else {
                0
            };
            match self.offset_nanos.checked_add(delta) {
                Some(sum) => sum,
                None => u64::MAX,
            }
        }
    }

    /// Executable seek.
    pub fn seek_at(self, now: u64, pos: u64) -> (r: TimeState)
        ensures
            r == self.spec_seek(now, pos),
    {
        TimeState { reference_nanos: now, offset_nanos: pos, paused: self.paused }
    }

    /// Executable pause toggle; folds the elapsed value as `elapsed_at`
    /// computes it.
    pub fn set_paused_at(self, now: u64, paused: bool) -> (r: TimeState)
        ensures
            now >= self.reference_nanos && self.spec_elapsed(now as int) <= u64::MAX ==> r
                == self.spec_set_paused(now, paused),
            r.paused == paused,
            r.reference_nanos == now,
            self.paused ==> r.offset_nanos == self.offset_nanos,
            r.offset_nanos >= self.offset_nanos,
    {
        let folded = self.elapsed_at(now);
        TimeState { reference_nanos: now, offset_nanos: folded, paused }
    }
}

/// Seek/pause composition law, on the mathematical transitions. After a seek
/// to `pos` at instant `n1` and a pause at instant `n2`, the elapsed value
/// reads `pos` plus only the slack between the two calls, whatever time
/// passes afterwards; with the pause at the seek instant itself it reads
/// exactly `pos`. After unpausing at `n4`, the elapsed value resumes
/// advancing from the held position.
pub proof fn lemma_seek_pause_composition(
    s0: TimeState,
    pos: u64,
    n1: u64,
    n2: u64,
    n4: u64,
    n5: u64,
)
    requires
        !s0.paused,
        n1 <= n2,
        pos + (n2 - n1) <= u64::MAX,
        n4 <= n5,
    ensures
        forall|n3: int|
            s0.spec_seek(n1, pos).spec_set_paused(n2, true).spec_elapsed(n3) == pos + (n2 - n1),
        n2 == n1 ==> forall|n3: int|
            s0.spec_seek(n1, pos).spec_set_paused(n2, true).spec_elapsed(n3) == pos,
        s0.spec_seek(n1, pos).spec_set_paused(n2, true).spec_set_paused(
            n4,
            false,
        ).spec_elapsed(n5 as int) == pos + (n2 - n1) + (n5 - n4),
{
    let s1 = s0.spec_seek(n1, pos);
    let s2 = s1.spec_set_paused(n2, true);
    assert(s1.spec_elapsed(n2 as int) == pos + (n2 - n1));
    assert(s2.offset_nanos == pos + (n2 - n1));
    let s3 = s2.spec_set_paused(n4, false);
    assert(s3.offset_nanos == s2.offset_nanos);
}

/// Round-trip law: turning a whole tick count into a wall-clock duration
/// and that duration back into ticks gives the original count, for every
/// representable position.
pub proof fn lemma_duration_round_trip(n: u32)
    ensures
        ticks_of_nanos(nanos_of_ticks(n as int)) == n,
{
    let ni = n as int;
    let q = nanos_of_ticks(ni);
    lemma_fundamental_div_mod(ni * 1_000_000_000 + 30, 60);
    let rem = (ni * 1_000_000_000 + 30) % 60;
    assert(0 <= rem < 60) by {
        lemma_mod_bound(ni * 1_000_000_000 + 30, 60);
    }
    assert(q * 60 + 30 == ni * 1_000_000_000 + 60 - rem);
    lemma_hoist_over_denominator(60 - rem, ni, 1_000_000_000);
    assert((60 - rem) + ni * 1_000_000_000 == q * 60 + 30);
    lemma_basic_div(60 - rem, 1_000_000_000);
    assert(ticks_of_nanos(q) == (60 - rem) / 1_000_000_000 + ni);
}

/// The guarantee for exact multiples of the tick period: a duration that
/// is the rounded form of a whole tick count converts to ticks and back to
/// exactly itself.
pub proof fn lemma_exact_duration_round_trip(n: u32)
    ensures
        nanos_of_ticks(ticks_of_nanos(nanos_of_ticks(n as int))) == nanos_of_ticks(n as int),
{
    lemma_duration_round_trip(n);
}

/// A position's tick count always sits in the 32-bit range; in particular
/// it is never negative.
pub proof fn lemma_ticks_in_range(t: Time)
    ensures
        0 <= t.ticks() <= u32::MAX,
{
}

#[verifier::external_type_specification]
#[verifier::external_body]
pub struct ExInstant(std::time::Instant);

/// Relies on std::time::Instant::now: captures the monotonic wall clock.
/// Nothing is promised of the value; the verified state logic holds for
/// every reading.
pub assume_specification[ std::time::Instant::now ]() -> std::time::Instant;

/// Relies on std::time::Instant::elapsed: the time since the instant was
/// captured. Nothing is promised of the value.
pub assume_specification[ std::time::Instant::elapsed ](
    i: &std::time::Instant,
) -> core::time::Duration;

/// Relies on core::time::Duration::as_nanos: the duration as a nanosecond
/// count. Nothing is promised of the value.
pub assume_specification[ core::time::Duration::as_nanos ](d: &core::time::Duration) -> u128;

/// The wall clock's nanosecond reading relative to `epoch`, clamped to what
/// fits; the verified callers promise nothing of it.
fn clock_nanos(epoch: &std::time::Instant) -> u64 {
    let nanos: u128 = epoch.elapsed().as_nanos();
    if nanos > u64::MAX as u128 {
        u64::MAX
    } else {
        #[verifier::truncate]
        (nanos as u64)
    }
}

/// A live, pausable, seekable wall-clock-backed time source. The mathematical
/// state is `TimeState`; every wall-clock reading is taken relative to a
/// captured epoch instant. Owned exclusively by the playback driver; an
/// editor is granted a temporary mutable borrow to seek or pause it.
pub struct SeekableTimeSource {
    epoch: std::time::Instant,
    state: TimeState,
}

impl SeekableTimeSource {
    /// The mathematical state backing this source.
    pub closed spec fn state(&self) -> TimeState {
        self.state
    }

    /// A source that starts at position zero, running, anchored now.
    pub fn now() -> (r: SeekableTimeSource)
        ensures
            r.state().offset_nanos == 0,
            !r.state().paused,
    {
        let epoch = std::time::Instant::now();
        let anchor = clock_nanos(&epoch);
        SeekableTimeSource {
            epoch,
            state: TimeState { reference_nanos: anchor, offset_nanos: 0, paused: false },
        }
    }

    /// The elapsed playback position in nanoseconds: exactly the held offset
    /// while paused, and never behind the offset while running.
    pub fn elapsed(&self) -> (r: u64)
        ensures
            self.state().paused ==> r == self.state().offset_nanos,
            r >= self.state().offset_nanos,
    {
        let now = clock_nanos(&self.epoch);
        self.state.elapsed_at(now)
    }

    /// Jump to the given position: the anchor moves to the invocation
    /// instant and later elapsed queries measure forward from `pos_nanos`.
    pub fn seek(&mut self, pos_nanos: u64)
        ensures
            final(self).state().offset_nanos == pos_nanos,
            final(self).state().paused == old(self).state().paused,
    {
        let now = clock_nanos(&self.epoch);
        self.state = self.state.seek_at(now, pos_nanos);
    }

    /// Freeze or unfreeze, folding the current elapsed value into the offset
    /// before flipping the flag; pausing an already paused source holds the
    /// position exactly.
    pub fn set_paused(&mut self, paused: bool)
        ensures
            final(self).state().paused == paused,
            old(self).state().paused ==> final(self).state().offset_nanos == old(
                self,
            ).state().offset_nanos,
            final(self).state().offset_nanos >= old(self).state().offset_nanos,
    {
        let now = clock_nanos(&self.epoch);
        self.state = self.state.set_paused_at(now, paused);
    }

    /// Freeze at the given position in one step, against a single wall-clock
    /// reading: afterwards the source is paused and elapsed queries return
    /// exactly `pos_nanos`, however much wall time passes, until the next
    /// seek or unpause.
    pub fn seek_paused(&mut self, pos_nanos: u64)
        ensures
            final(self).state().paused,
            final(self).state().offset_nanos == pos_nanos,
    {
        let now = clock_nanos(&self.epoch);
        self.state = self.state.set_paused_at(now, true).seek_at(now, pos_nanos);
    }

    /// Whether the source is frozen.
    pub fn is_paused(&self) -> (r: bool)
        ensures
            r == self.state().paused,
    {
        self.state.paused
    }
}

} // verus!
