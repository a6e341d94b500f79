use vstd::prelude::*;

verus! {

/// The hot-reload coordinator's core: it keeps the active render payload,
/// swaps it atomically for a freshly compiled one, and after a failed
/// recompile keeps the previous payload running unchanged with the
/// diagnostic retained — a broken edit never interrupts playback. The host
/// polls its watcher once per frame, compiles off the returned source, and
/// feeds the outcome in here; the old payload is released when replaced.
pub struct ReloadCoordinator<P> {
    active: P,
    last_diagnostic: Option<String>,
}

impl<P> ReloadCoordinator<P> {
    /// The payload playback currently renders with.
    pub closed spec fn spec_active(&self) -> P {
        self.active
    }

    /// The diagnostic of the last recompile, if it failed.
    pub closed spec fn spec_diagnostic(&self) -> Option<String> {
        self.last_diagnostic
    }

    /// Begin with the initially built payload.
    pub fn new(initial: P) -> (r: ReloadCoordinator<P>)
        ensures
            r.spec_active() == initial,
            r.spec_diagnostic() is None,
    {
        ReloadCoordinator { active: initial, last_diagnostic: None }
    }

    /// Take in one recompile outcome: success swaps the payload and clears
    /// the diagnostic; failure keeps the payload and records the diagnostic.
    pub fn apply(&mut self, outcome: Result<P, String>)
        ensures
            match outcome {
                Ok(p) => final(self).spec_active() == p && final(self).spec_diagnostic() is None,
                Err(d) => final(self).spec_active() == old(self).spec_active() && final(self).spec_diagnostic() == Some(d),
            },
    {
        match outcome {
            Ok(p) => {
                self.active = p;
                self.last_diagnostic = None;
            },
            Err(d) => {
                self.last_diagnostic = Some(d);
            },
        }
    }

    /// The payload to render with this frame.
    pub fn active(&self) -> (r: &P)
        ensures
            *r == self.spec_active(),
    {
        &self.active
    }

    /// The retained diagnostic, if the last recompile failed.
    pub fn diagnostic(&self) -> (r: &Option<String>)
        ensures
            *r == self.spec_diagnostic(),
    {
        &self.last_diagnostic
    }
}

/// Collapses rapid successive change notifications into a single reload: a
/// noted event arms or re-arms the window, and the debouncer fires once the
/// whole window has passed with no further event.
pub struct Debouncer {
    window_nanos: u64,
    pending_since: Option<u64>,
}

impl Debouncer {
    /// The configured quiet window.
    pub closed spec fn spec_window(&self) -> u64 {
        self.window_nanos
    }

    /// The instant of the last noted event, while armed.
    pub closed spec fn spec_pending(&self) -> Option<u64> {
        self.pending_since
    }

    /// A quiet debouncer with the given window.
    pub fn new(window_nanos: u64) -> (r: Debouncer)
        ensures
            r.spec_window() == window_nanos,
            r.spec_pending() is None,
    {
        Debouncer { window_nanos, pending_since: None }
    }

    /// Note a change event at the given instant: arms, or re-arms, the
    /// window.
    pub fn note(&mut self, now: u64)
        ensures
            final(self).spec_window() == old(self).spec_window(),
            final(self).spec_pending() == Some(now),
    {
        self.pending_since = Some(now);
    }

    /// Poll at the given instant: fires exactly when armed and the window
    /// has passed since the last noted event; firing disarms.
    pub fn poll(&mut self, now: u64) -> (fire: bool)
        ensures
            final(self).spec_window() == old(self).spec_window(),
            fire <==> (old(self).spec_pending() matches Some(t0) && t0 + old(self).spec_window()
                <= now),
            fire ==> final(self).spec_pending() is None,
            !fire ==> final(self).spec_pending() == old(self).spec_pending(),
    {
        match self.pending_since {
            Some(t0) => {
                if now >= t0 && now - t0 >= self.window_nanos {
                    self.pending_since = None;
                    true
                } else {
                    false
                }
            },
            None => false,
        }
    }
}

} // verus!
