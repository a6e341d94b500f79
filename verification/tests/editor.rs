use usch::editor::{EditorEvent, MusicCommand};
use usch::sync::Tracker;

fn tracker() -> Tracker {
    Tracker::new(120, None, &vec![String::from("a")]).unwrap()
}

#[test]
fn row_steps_scrub_and_pause() {
    let mut t = tracker();
    let (row, cmd) = t.apply_edit(8, EditorEvent::RowDown { fast: false });
    assert_eq!(9, row);
    assert_eq!(MusicCommand::Stay, cmd);
    assert!(t.time.is_paused());
    // At 120 beats per minute a row is an eighth of a second.
    assert_eq!(1_125_000_000, t.time.elapsed());
    let (row, cmd) = t.apply_edit(row, EditorEvent::RowUp { fast: true });
    assert_eq!(5, row);
    assert_eq!(MusicCommand::Stay, cmd);
    assert_eq!(625_000_000, t.time.elapsed());
    assert_eq!(5, t.current_row());
}

#[test]
fn row_up_stops_at_zero() {
    let mut t = tracker();
    let (row, _) = t.apply_edit(2, EditorEvent::RowUp { fast: true });
    assert_eq!(0, row);
    let (row, _) = t.apply_edit(row, EditorEvent::RowUp { fast: false });
    assert_eq!(0, row);
    assert_eq!(0, t.time.elapsed());
}

#[test]
fn toggle_pause_commands_the_music() {
    let mut t = tracker();
    let (row, cmd) = t.apply_edit(4, EditorEvent::TogglePause);
    assert_eq!(4, row);
    assert_eq!(MusicCommand::Pause, cmd);
    assert!(t.time.is_paused());
    let (_, cmd) = t.apply_edit(4, EditorEvent::TogglePause);
    // Resuming realigns the music with the cursor row: half a second at
    // eight rows per second.
    assert_eq!(MusicCommand::Resume { position_nanos: 500_000_000 }, cmd);
    assert!(!t.time.is_paused());
}

#[test]
fn row_down_saturates_at_the_top() {
    let mut t = tracker();
    let (row, _) = t.apply_edit(u32::MAX - 1, EditorEvent::RowDown { fast: true });
    assert_eq!(u32::MAX, row);
}
