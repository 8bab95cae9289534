//! The compact always-on-top window mode: an idempotent enter, a guarded
//! exit, and a single-depth snapshot of the geometry to restore.
//!
//! The library decides; the shell applies. Both operations return the
//! placement the window system must be driven to, and the shell touches the
//! window only when told to.

use vstd::prelude::*;

verus! {

/// The compact-mode geometry from the embedded configuration resource.
#[derive(Clone, Copy, Debug, PartialEq, Eq, Structural)]
pub struct PipConfig {
    pub width: u32,
    pub height: u32,
    pub padding: i32,
}

/// A window's current geometry as the shell reads it.
#[derive(Clone, Copy, Debug, PartialEq, Eq, Structural)]
pub struct WindowGeometry {
    pub width: u32,
    pub height: u32,
    pub x: i32,
    pub y: i32,
    pub decorations: bool,
}

/// What was saved when compact mode was entered.
#[derive(Clone, Copy, Debug, PartialEq, Eq, Structural)]
pub struct WindowSnapshot {
    pub width: u32,
    pub height: u32,
    pub x: i32,
    pub y: i32,
    pub decorations_enabled: bool,
    pub pip_active: bool,
}

/// A placement the shell must apply to the window.
#[derive(Clone, Copy, Debug, PartialEq, Eq, Structural)]
pub struct WindowPlacement {
    pub width: u32,
    pub height: u32,
    pub x: i32,
    pub y: i32,
    pub decorations: bool,
    pub always_on_top: bool,
}

/// Why a mode change was refused.
#[derive(Clone, Copy, Debug, PartialEq, Eq, Structural)]
pub enum PipError {
    /// Exit was asked for while compact mode was not active.
    NotActive,
}

impl PipError {
    /// A short account of the failure, for surfacing to the frontend: the
    /// recognizable not-active text.
    pub fn message(&self) -> (r: &'static str)
        ensures
            r@ == "cannot exit compact mode: it is not currently active"@,
    {
        match self {
            PipError::NotActive => "cannot exit compact mode: it is not currently active",
        }
    }
}

/// What entering compact mode asks of the shell.
#[derive(Clone, Copy, Debug, PartialEq, Eq, Structural)]
pub enum EnterOutcome {
    /// Compact mode was already active: touch nothing.
    AlreadyActive,
    /// Save succeeded: drive the window to this placement.
    Apply(WindowPlacement),
}

/// The single process-wide compact-mode state.
pub struct PipState {
    pub snapshot: Option<WindowSnapshot>,
}

impl PipState {
    /// A snapshot is only ever stored with the active mark set.
    pub open spec fn wf(&self) -> bool {
        match self.snapshot {
            Some(s) => s.pip_active,
            None => true,
        }
    }

    /// Compact mode is active: a snapshot is present and marked active.
    pub open spec fn pip_active(&self) -> bool {
        match self.snapshot {
            Some(s) => s.pip_active,
            None => false,
        }
    }

    /// Fresh state: no snapshot, not in compact mode.
    pub fn new() -> (r: PipState)
        ensures
            r.snapshot is None,
            r.wf(),
            !r.pip_active(),
    {
        PipState { snapshot: None }
    }
}

/// `pip_active` is true exactly when the snapshot is present: the snapshot
/// is created on enter with the mark set and consumed whole on exit.
pub proof fn lemma_pip_active_iff_snapshot_present(s: PipState)
    requires
        s.wf(),
    ensures
        s.pip_active() <==> s.snapshot is Some,
{
}

/// The monitor size the placement is computed against: the current monitor
/// when the shell could detect one, else a 1920 x 1080 fallback.
pub open spec fn effective_monitor(monitor: Option<(u32, u32)>) -> (int, int) {
    match monitor {
        Some(m) => (m.0 as int, m.1 as int),
        None => (1920, 1080),
    }
}

/// The bottom-right placement arithmetic stays within 32-bit coordinates.
pub open spec fn placement_fits(monitor: Option<(u32, u32)>, config: PipConfig) -> bool {
    let (mw, mh) = effective_monitor(monitor);
    &&& -0x8000_0000 <= mw - config.width - config.padding <= 0x7FFF_FFFF
    &&& -0x8000_0000 <= mh - config.height - config.padding <= 0x7FFF_FFFF
}

/// The compact placement: configured size, bottom-right corner inset by the
/// configured padding, decorations on so the window can be dragged, always
/// on top.
pub open spec fn compact_placement(monitor: Option<(u32, u32)>, config: PipConfig)
    -> WindowPlacement {
    let (mw, mh) = effective_monitor(monitor);
    WindowPlacement {
        width: config.width,
        height: config.height,
        x: (mw - config.width - config.padding) as i32,
        y: (mh - config.height - config.padding) as i32,
        decorations: true,
        always_on_top: true,
    }
}

/// Enter compact mode. Idempotent: a second enter is a no-op that leaves
/// the saved snapshot — the original geometry — untouched. Otherwise the
/// current geometry is saved and the shell is told the compact placement.
pub fn enter_pip(
    state: &mut PipState,
    current: WindowGeometry,
    config: PipConfig,
    monitor: Option<(u32, u32)>,
) -> (r: EnterOutcome)
    requires
        old(state).wf(),
        placement_fits(monitor, config),
    ensures
        final(state).wf(),
        old(state).pip_active() ==> r == EnterOutcome::AlreadyActive && final(state).snapshot
            == old(state).snapshot,
        !old(state).pip_active() ==> {
            &&& final(state).snapshot == Some(
                (WindowSnapshot {
                    width: current.width,
                    height: current.height,
                    x: current.x,
                    y: current.y,
                    decorations_enabled: current.decorations,
                    pip_active: true,
                }),
            )
            &&& r == EnterOutcome::Apply(compact_placement(monitor, config))
        },
        final(state).pip_active(),
{
    match &state.snapshot {
        Some(s) if s.pip_active => {
            return EnterOutcome::AlreadyActive;
        },
        _ => {},
    }
    state.snapshot = Some(
        WindowSnapshot {
            width: current.width,
            height: current.height,
            x: current.x,
            y: current.y,
            decorations_enabled: current.decorations,
            pip_active: true,
        },
    );
    let (mw, mh) = match monitor {
        Some(m) => (m.0 as i64, m.1 as i64),
        None => (1920i64, 1080i64),
    };
    let x = (mw - (config.width as i64) - (config.padding as i64)) as i32;
    let y = (mh - (config.height as i64) - (config.padding as i64)) as i32;
    EnterOutcome::Apply(
        WindowPlacement {
            width: config.width,
            height: config.height,
            x,
            y,
            decorations: true,
            always_on_top: true,
        },
    )
}

/// Exit compact mode. Without an active snapshot this is a distinct error
/// and nothing changes; otherwise the snapshot is consumed and the shell is
/// told to restore the saved geometry, decorations as they were, and
/// always-on-top off.
pub fn exit_pip(state: &mut PipState) -> (r: Result<WindowPlacement, PipError>)
    requires
        old(state).wf(),
    ensures
        final(state).wf(),
        old(state).snapshot is None ==> r == Err::<WindowPlacement, PipError>(PipError::NotActive)
            && final(state).snapshot == old(state).snapshot,
        match old(state).snapshot {
            Some(snap) => {
                &&& r == Ok::<WindowPlacement, PipError>(
                    (WindowPlacement {
                        width: snap.width,
                        height: snap.height,
                        x: snap.x,
                        y: snap.y,
                        decorations: snap.decorations_enabled,
                        always_on_top: false,
                    }),
                )
                &&& final(state).snapshot is None
            },
            None => true,
        },
        !final(state).pip_active(),
{
    match state.snapshot.take() {
        None => Err(PipError::NotActive),
        Some(snap) => Ok(
            WindowPlacement {
                width: snap.width,
                height: snap.height,
                x: snap.x,
                y: snap.y,
                decorations: snap.decorations_enabled,
                always_on_top: false,
            },
        ),
    }
}

} // verus!
