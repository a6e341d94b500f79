use vstd::prelude::*;

verus! {

/// An authoring input the tracker editor reacts to: toggling pause, or
/// stepping the cursor row, a whole beat at a time with the fast modifier.
#[derive(PartialEq, Eq, Structural, Clone, Copy, Debug)]
pub enum EditorEvent {
    TogglePause,
    RowUp { fast: bool },
    RowDown { fast: bool },
}

/// What the host must do with the music stream after an editor step:
/// nothing, pause it, or resume it at the given position.
#[derive(PartialEq, Eq, Structural, Clone, Copy, Debug)]
pub enum MusicCommand {
    Stay,
    Pause,
    Resume { position_nanos: u64 },
}

/// The row step an event asks for: a whole beat of four rows when the fast
/// modifier is held, else one row.
pub open spec fn edit_step(fast: bool) -> int {
    if fast {
        4
    } else {
        1
    }
}

} // verus!
