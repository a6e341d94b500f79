use usch::engine::{current_scene, video_mode_matches, PacingState};
use usch::scene::{Content, Scene, UniformsContext, UniformSource};
use usch::time::Time;
use usch::Shader;

struct NoUniforms;

impl UniformSource for NoUniforms {
    fn produce_uniforms(&self, _ctx: &UniformsContext) -> Vec<u8> {
        Vec::new()
    }
}

fn scene(duration_ticks: u32) -> Scene<'static, NoUniforms> {
    Scene {
        duration: Time::from_frame(duration_ticks),
        content: Content::SingleFragmentShader(Shader::Wgsl("")),
        uniforms: NoUniforms,
    }
}

#[test]
fn sequencer_boundaries() {
    let scenes = vec![scene(10), scene(5)];
    let r = current_scene(&scenes, Time::from_frame(9)).unwrap();
    assert_eq!((0, 9), (r.0, r.1.frame()));
    let r = current_scene(&scenes, Time::from_frame(10)).unwrap();
    assert_eq!((1, 0), (r.0, r.1.frame()));
    assert!(current_scene(&scenes, Time::from_frame(15)).is_none());
}

#[test]
fn sequencer_skips_zero_duration_scenes() {
    let scenes = vec![scene(0), scene(10), scene(0), scene(5)];
    let r = current_scene(&scenes, Time::from_frame(0)).unwrap();
    assert_eq!((1, 0), (r.0, r.1.frame()));
    let r = current_scene(&scenes, Time::from_frame(12)).unwrap();
    assert_eq!((3, 2), (r.0, r.1.frame()));
}

#[test]
fn sequencer_on_empty_production() {
    let scenes: Vec<Scene<'static, NoUniforms>> = Vec::new();
    assert!(current_scene(&scenes, Time::from_frame(0)).is_none());
}

#[test]
fn pacing_reaches_running_on_sixtieth_advance() {
    let mut state = PacingState::Warmup(0);
    let mut audio_starts = 0;
    for i in 0..60 {
        assert!(!matches!(state, PacingState::Running));
        let (next, start_audio) = state.advance(16_500_000).unwrap();
        state = next;
        if start_audio {
            audio_starts += 1;
            assert_eq!(59, i);
        }
    }
    assert!(matches!(state, PacingState::Running));
    assert_eq!(1, audio_starts);
    // Running is absorbing, and audio never starts again.
    let (next, start_audio) = state.advance(300_000_000).unwrap();
    assert_eq!(PacingState::Running, next);
    assert!(!start_audio);
}

#[test]
fn pacing_rejects_mismatched_rate() {
    let mut state = PacingState::Warmup(0);
    for _ in 0..59 {
        state = state.advance(16_500_000).unwrap().0;
    }
    // The sixtieth measured duration is out of tolerance: fatal, never
    // reaching the running phase.
    let r = state.advance(25_000_000);
    let e = r.unwrap_err();
    assert_eq!(25_000_000, e.measured_nanos);
}

#[test]
fn pacing_tolerance_is_sixteen_to_seventeen_milliseconds() {
    let last = PacingState::Warmup(59);
    assert!(last.advance(16_000_000).is_ok());
    assert!(last.advance(17_999_999).is_ok());
    assert!(last.advance(15_999_999).is_err());
    assert!(last.advance(18_000_000).is_err());
}

#[test]
fn video_mode_selection() {
    assert!(video_mode_matches(1920, 1080, 60, (1920, 1080)));
    assert!(!video_mode_matches(1920, 1080, 75, (1920, 1080)));
    assert!(!video_mode_matches(1280, 720, 60, (1920, 1080)));
}
