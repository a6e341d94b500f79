use vstd::prelude::*;

use crate::scene::Scene;
use crate::time::Time;

verus! {

/// Number of consecutive frames measured before the output rate is trusted.
pub const WARMUP_FRAMES: u32 = 60;

/// The frame-pacing phase: still measuring the output rate, or committed to
/// synchronized playback. The transition is one-directional; a session never
/// returns to warmup.
#[derive(PartialEq, Eq, Structural, Clone, Copy, Debug)]
pub enum PacingState {
    Warmup(u32),
    Running,
}

/// Fatal pacing failure: on the final warmup frame the measured frame
/// duration fell outside the tolerance band for the target rate, so the
/// display is not honoring sixty hertz and playback must not begin.
#[derive(PartialEq, Eq, Structural, Clone, Copy, Debug)]
pub struct PacingError {
    pub measured_nanos: u64,
}

/// Whether a measured frame duration is acceptable for a sixty-hertz
/// output: sixteen or seventeen whole milliseconds.
pub open spec fn within_tolerance(nanos: u64) -> bool {
    16_000_000 <= nanos < 18_000_000
}

impl PacingState {
    /// A warmup counter always stays below the number of measured frames.
    pub open spec fn wf(self) -> bool {
        match self {
            PacingState::Warmup(n) => n < WARMUP_FRAMES,
            PacingState::Running => true,
        }
    }

    /// One advance, as a mathematical step function: the next state and
    /// whether audio starts now, or nothing on the fatal rate mismatch.
    pub open spec fn step(self, frame_nanos: u64) -> Option<(PacingState, bool)> {
        match self {
            PacingState::Warmup(n) => {
                if n < 59 {
                    Some((PacingState::Warmup((n + 1) as u32), false))
                } else if within_tolerance(frame_nanos) {
                    Some((PacingState::Running, true))
                } else {
                    None
                }
            },
            PacingState::Running => Some((PacingState::Running, false)),
        }
    }

    /// Advance after presenting one frame, given that frame's measured
    /// wall-clock duration. Returns the next state and whether audio playback
    /// must start now; on the final warmup frame an out-of-tolerance duration
    /// is the fatal configuration error.
    pub fn advance(self, frame_nanos: u64) -> (r: Result<(PacingState, bool), PacingError>)
        requires
            self.wf(),
        ensures
            match r {
                Ok(next) => self.step(frame_nanos) == Some(next) && next.0.wf(),
                Err(e) => self.step(frame_nanos) is None && e.measured_nanos == frame_nanos,
            },
    {
        match self {
            PacingState::Warmup(n) => {
                if n < 59 {
                    Ok((PacingState::Warmup(n + 1), false))
                } else if 16_000_000 <= frame_nanos && frame_nanos < 18_000_000 {
                    Ok((PacingState::Running, true))
                } else {
                    Err(PacingError { measured_nanos: frame_nanos })
                }
            },
            PacingState::Running => Ok((PacingState::Running, false)),
        }
    }
}

/// Folding `step` over a whole sequence of measured frame durations: the
/// final state and how many times audio was started, or nothing if a fatal
/// rate mismatch occurred along the way.
pub open spec fn pacing_run(s: PacingState, durs: Seq<u64>) -> Option<(PacingState, nat)>
    decreases durs.len(),
{
    if durs.len() == 0 {
        Some((s, 0))
    } else {
        match s.step(durs[0]) {
            None => None,
            Some((s2, started)) => match pacing_run(s2, durs.skip(1)) {
                None => None,
                Some((sf, k)) => Some((sf, k + if started { 1nat } else { 0nat })),
            },
        }
    }
}

/// Once running, the machine stays running forever and never starts audio
/// again, whatever the measured durations are.
pub proof fn lemma_running_is_absorbing(durs: Seq<u64>)
    ensures
        pacing_run(PacingState::Running, durs) == Some((PacingState::Running, 0nat)),
    decreases durs.len(),
{
    if durs.len() > 0 {
        lemma_running_is_absorbing(durs.skip(1));
    }
}

/// Warmup progress: a run of fewer in-tolerance frames than warmup still
/// needs only advances the counter and never starts audio.
pub proof fn lemma_warmup_partial(n: u32, durs: Seq<u64>)
    requires
        n < WARMUP_FRAMES,
        n + durs.len() < WARMUP_FRAMES,
        forall|i: int| 0 <= i < durs.len() ==> within_tolerance(#[trigger] durs[i]),
    ensures
        pacing_run(PacingState::Warmup(n), durs) == Some((
            PacingState::Warmup((n + durs.len()) as u32),
            0nat,
        )),
    decreases durs.len(),
{
    if durs.len() > 0 {
        lemma_warmup_partial((n + 1) as u32, durs.skip(1));
    }
}

/// Pacing transition, completed: a full sequence of sixty in-tolerance frame
/// durations drives the machine from the start of warmup to `Running`, with
/// the audio-start side effect triggered exactly once, on the final advance.
pub proof fn lemma_warmup_completes(durs: Seq<u64>)
    requires
        durs.len() == WARMUP_FRAMES,
        forall|i: int| 0 <= i < durs.len() ==> within_tolerance(#[trigger] durs[i]),
    ensures
        pacing_run(PacingState::Warmup(0), durs) == Some((PacingState::Running, 1nat)),
        pacing_run(PacingState::Warmup(0), durs.take(59)) == Some((
            PacingState::Warmup(59),
            0nat,
        )),
{
    lemma_warmup_completes_from(0, durs);
    assert(forall|i: int|
        0 <= i < durs.take(59).len() ==> within_tolerance(#[trigger] durs.take(59)[i]));
    lemma_warmup_partial(0, durs.take(59));
}

/// Helper induction for `lemma_warmup_completes`, from an arbitrary point in
/// the warmup phase.
proof fn lemma_warmup_completes_from(n: u32, durs: Seq<u64>)
    requires
        n < WARMUP_FRAMES,
        n + durs.len() == WARMUP_FRAMES,
        forall|i: int| 0 <= i < durs.len() ==> within_tolerance(#[trigger] durs[i]),
    ensures
        pacing_run(PacingState::Warmup(n), durs) == Some((PacingState::Running, 1nat)),
    decreases durs.len(),
{
    if n == 59 {
        assert(durs.len() == 1);
        lemma_running_is_absorbing(durs.skip(1));
    } else {
        lemma_warmup_completes_from((n + 1) as u32, durs.skip(1));
    }
}

/// Pacing transition, refused: if the duration measured on the final warmup
/// frame is out of tolerance, the run fails with the fatal pacing error and
/// the machine never reaches `Running` — whatever the first fifty-nine
/// measured durations were, since only the final one is validated.
pub proof fn lemma_warmup_rejects(durs: Seq<u64>)
    requires
        durs.len() == WARMUP_FRAMES,
        !within_tolerance(durs[59]),
    ensures
        pacing_run(PacingState::Warmup(0), durs) is None,
{
    lemma_warmup_rejects_from(0, durs);
}

/// Helper induction for `lemma_warmup_rejects`.
proof fn lemma_warmup_rejects_from(n: u32, durs: Seq<u64>)
    requires
        n < WARMUP_FRAMES,
        n + durs.len() == WARMUP_FRAMES,
        !within_tolerance(durs[durs.len() - 1]),
    ensures
        pacing_run(PacingState::Warmup(n), durs) is None,
    decreases durs.len(),
{
    if n < 59 {
        lemma_warmup_rejects_from((n + 1) as u32, durs.skip(1));
    }
}

/// Whether a display video mode suits exclusive fullscreen: the production's
/// exact resolution at the sixty-hertz target rate.
pub fn video_mode_matches(width: u32, height: u32, refresh_rate: u32, want: (u32, u32)) -> (r:
    bool)
    ensures
        r <==> (refresh_rate == 60 && width == want.0 && height == want.1),
{
    refresh_rate == 60 && width == want.0 && height == want.1
}

/// Which scene is active at global time `t`, over the scene durations alone:
/// walk the sequence, subtracting each duration from `t` until the remainder
/// is smaller than the duration at hand; the answer is that index and the
/// remainder as scene-local time. Nothing is active past the total duration,
/// and a zero-duration scene is never active.
pub open spec fn active_scene_spec(durs: Seq<int>, t: int) -> Option<(int, int)>
    decreases durs.len(),
{
    if durs.len() == 0 {
        None
    } else if t < durs[0] {
        Some((0, t))
    } else {
        match active_scene_spec(durs.skip(1), t - durs[0]) {
            Some((i, local)) => Some((i + 1, local)),
            None => None,
        }
    }
}

/// The total duration of a run of scenes, in ticks.
pub open spec fn total_duration(durs: Seq<int>) -> int
    decreases durs.len(),
{
    if durs.len() == 0 {
        0
    } else {
        durs[0] + total_duration(durs.skip(1))
    }
}

/// What the sequencer's answer means in sums: a scene is active exactly
/// while the global time has passed the durations before it but not its
/// own, its local time is the remainder, and nothing is active from the
/// total duration on — the end of the production.
pub proof fn lemma_active_scene_characterization(durs: Seq<int>, t: int)
    requires
        0 <= t,
        forall|i: int| 0 <= i < durs.len() ==> #[trigger] durs[i] >= 0,
    ensures
        match active_scene_spec(durs, t) {
            Some((i, local)) => {
                &&& 0 <= i < durs.len()
                &&& 0 <= local < durs[i]
                &&& total_duration(durs.take(i)) + local == t
            },
            None => t >= total_duration(durs),
        },
    decreases durs.len(),
{
    if durs.len() == 0 {
    } else if t < durs[0] {
        assert(durs.take(0) =~= Seq::<int>::empty());
    } else {
        assert forall|i: int| 0 <= i < durs.skip(1).len() implies #[trigger] durs.skip(1)[i]
            >= 0 by {
            assert(durs.skip(1)[i] == durs[i + 1]);
        }
        lemma_active_scene_characterization(durs.skip(1), t - durs[0]);
        match active_scene_spec(durs.skip(1), t - durs[0]) {
            Some((i, local)) => {
                assert(durs.take(i + 1)[0] == durs[0]);
                assert(durs.take(i + 1).skip(1) =~= durs.skip(1).take(i));
                assert(total_duration(durs.take(i + 1)) == durs[0] + total_duration(
                    durs.skip(1).take(i),
                ));
            },
            None => {},
        }
    }
}

/// The durations of a sequence of scenes, in ticks.
pub open spec fn scene_durations<U>(scenes: Seq<Scene<U>>) -> Seq<int> {
    Seq::new(scenes.len(), |i: int| scenes[i].duration.ticks())
}

/// Scene durations are tick counts, hence never negative — the standing
/// hypothesis of `lemma_active_scene_characterization` for any scene list.
pub proof fn lemma_scene_durations_nonnegative<U>(scenes: Seq<Scene<U>>)
    ensures
        forall|i: int|
            0 <= i < scene_durations(scenes).len() ==> #[trigger] scene_durations(scenes)[i] >= 0,
{
    assert forall|i: int|
        0 <= i < scene_durations(scenes).len() implies #[trigger] scene_durations(scenes)[i]
        >= 0 by {
        crate::time::lemma_ticks_in_range(scenes[i].duration);
    }
}

/// Resolve the active scene for global time `time`: the index of the scene
/// and the time local to it, or nothing once the production has ended, which
/// is the terminal signal to the playback loop, not an error.
pub fn current_scene<U>(scenes: &Vec<Scene<U>>, time: Time) -> (r: Option<(usize, Time)>)
    ensures
        match r {
            Some(p) => active_scene_spec(scene_durations(scenes@), time.ticks()) == Some(
                (p.0 as int, p.1.ticks()),
            ),
            None => active_scene_spec(scene_durations(scenes@), time.ticks()) is None,
        },
{
    let ghost durs = scene_durations(scenes@);
    let mut t = time;
    let mut i: usize = 0;
    proof {
        assert(durs.skip(0) =~= durs);
    }
    while i < scenes.len()
        invariant
            0 <= i <= scenes.len(),
            durs == scene_durations(scenes@),
            active_scene_spec(durs, time.ticks()) == match active_scene_spec(
                durs.skip(i as int),
                t.ticks(),
            ) {
                Some((j, local)) => Some((i + j, local)),
                None => None::<(int, int)>,
            },
        decreases scenes.len() - i,
    {
        let duration = scenes[i].duration;
        proof {
            assert(durs.skip(i as int)[0] == durs[i as int]);
            assert(durs.skip(i as int).skip(1) =~= durs.skip(i as int + 1));
        }
        if t.frame() < duration.frame() {
            return Some((i, t));
        }
        t = t.sub(duration);
        i = i + 1;
    }
    proof {
        assert(durs.skip(i as int).len() == 0);
    }
    None
}

} // verus!
