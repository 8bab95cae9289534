use glucose_core::window::{
    EnterOutcome, PipConfig, PipError, PipState, WindowGeometry, WindowPlacement, enter_pip,
    exit_pip,
};

fn config() -> PipConfig {
    PipConfig { width: 400, height: 225, padding: 20 }
}

fn original() -> WindowGeometry {
    WindowGeometry { width: 1280, height: 720, x: 100, y: 80, decorations: false }
}

#[test]
fn enter_saves_and_places_bottom_right() {
    let mut st = PipState::new();
    let out = enter_pip(&mut st, original(), config(), Some((2560, 1440)));
    assert_eq!(
        out,
        EnterOutcome::Apply(WindowPlacement {
            width: 400,
            height: 225,
            x: 2560 - 400 - 20,
            y: 1440 - 225 - 20,
            decorations: true,
            always_on_top: true,
        })
    );
    let snap = st.snapshot.unwrap();
    assert_eq!(snap.width, 1280);
    assert_eq!(snap.height, 720);
    assert_eq!(snap.x, 100);
    assert_eq!(snap.y, 80);
    assert!(!snap.decorations_enabled);
    assert!(snap.pip_active);
}

#[test]
fn enter_uses_fallback_monitor_when_unknown() {
    let mut st = PipState::new();
    let out = enter_pip(&mut st, original(), config(), None);
    assert_eq!(
        out,
        EnterOutcome::Apply(WindowPlacement {
            width: 400,
            height: 225,
            x: 1920 - 400 - 20,
            y: 1080 - 225 - 20,
            decorations: true,
            always_on_top: true,
        })
    );
}

#[test]
fn second_enter_is_a_no_op_keeping_original_snapshot() {
    let mut st = PipState::new();
    let _ = enter_pip(&mut st, original(), config(), Some((1920, 1080)));
    let snap_before = st.snapshot;
    // A second enter reports the compact geometry as current; the snapshot
    // must keep the original, not this one.
    let compact_now =
        WindowGeometry { width: 400, height: 225, x: 1500, y: 835, decorations: true };
    let out = enter_pip(&mut st, compact_now, config(), Some((1920, 1080)));
    assert_eq!(out, EnterOutcome::AlreadyActive);
    assert_eq!(st.snapshot, snap_before);
}

#[test]
fn exit_restores_and_clears() {
    let mut st = PipState::new();
    let _ = enter_pip(&mut st, original(), config(), Some((1920, 1080)));
    let restored = exit_pip(&mut st).unwrap();
    assert_eq!(
        restored,
        WindowPlacement {
            width: 1280,
            height: 720,
            x: 100,
            y: 80,
            decorations: false,
            always_on_top: false,
        }
    );
    assert!(st.snapshot.is_none());
}

#[test]
fn exit_without_enter_is_a_distinct_error() {
    let mut st = PipState::new();
    assert_eq!(exit_pip(&mut st), Err(PipError::NotActive));
    assert!(st.snapshot.is_none());
}

#[test]
fn enter_enter_exit_exit_scenario() {
    let mut st = PipState::new();
    let first = enter_pip(&mut st, original(), config(), Some((1920, 1080)));
    assert!(matches!(first, EnterOutcome::Apply(_)));
    let second = enter_pip(&mut st, original(), config(), Some((1920, 1080)));
    assert_eq!(second, EnterOutcome::AlreadyActive);
    let third = exit_pip(&mut st);
    assert!(third.is_ok());
    let fourth = exit_pip(&mut st);
    assert_eq!(fourth, Err(PipError::NotActive));
}

#[test]
fn snapshot_presence_tracks_activity() {
    let mut st = PipState::new();
    assert!(st.snapshot.is_none());
    let _ = enter_pip(&mut st, original(), config(), None);
    assert!(st.snapshot.map(|s| s.pip_active).unwrap_or(false));
    let _ = exit_pip(&mut st);
    assert!(st.snapshot.is_none());
}
