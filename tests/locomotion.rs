use scene_runtime::locomotion::{PLAYBACK_PERMILLE, POSITION_CAP};
use scene_runtime::{Gait, Heading, Keys, LocomotionState, Playback, ViewMode};

fn keys(w: bool, s: bool, a: bool, d: bool) -> Keys {
    Keys { w, s, a, d }
}

const NONE: Keys = Keys { w: false, s: false, a: false, d: false };

#[test]
fn w_in_front_view_moves_away_from_camera() {
    let mut st = LocomotionState::at_rest(0, 0, Heading::Zero);
    let cmd = st.tick(ViewMode::Front, keys(true, false, false, false), 100_000);
    assert_eq!(st.velocity_x, 0);
    assert_eq!(st.velocity_z, -2);
    assert!(st.velocity_x != 0 || st.velocity_z != 0);
    assert_eq!(st.gait, Gait::Move);
    assert_eq!(st.heading, Heading::NegHalfTurn);
    assert_eq!(st.x, 0);
    assert_eq!(st.z, -200_000);
    assert_eq!(
        cmd,
        Playback { play: Gait::Move, stop: Gait::Idle, speed_permille: PLAYBACK_PERMILLE }
    );
}

#[test]
fn front_view_key_mapping() {
    let cases = [
        (keys(false, true, false, false), 0, 2, Heading::Zero),
        (keys(false, false, true, false), -2, 0, Heading::NegQuarterTurn),
        (keys(false, false, false, true), 2, 0, Heading::QuarterTurn),
    ];
    for (k, vx, vz, h) in cases {
        let mut st = LocomotionState::at_rest(0, 0, Heading::HalfTurn);
        st.tick(ViewMode::Front, k, 1_000);
        assert_eq!((st.velocity_x, st.velocity_z, st.heading), (vx, vz, h));
        assert_eq!((st.x, st.z), (vx * 1_000, vz * 1_000));
    }
}

#[test]
fn side_view_key_mapping() {
    let cases = [
        (keys(true, false, false, false), -2, 0, Heading::NegQuarterTurn),
        (keys(false, true, false, false), 2, 0, Heading::QuarterTurn),
        (keys(false, false, true, false), 0, 2, Heading::Zero),
        (keys(false, false, false, true), 0, -2, Heading::HalfTurn),
    ];
    for (k, vx, vz, h) in cases {
        let mut st = LocomotionState::at_rest(-5_000_000, -5_000_000, Heading::NegHalfTurn);
        st.tick(ViewMode::Side, k, 250_000);
        assert_eq!((st.velocity_x, st.velocity_z, st.heading), (vx, vz, h));
        assert_eq!((st.x, st.z), (-5_000_000 + vx * 250_000, -5_000_000 + vz * 250_000));
    }
}

#[test]
fn later_key_in_scan_order_sets_facing() {
    let mut st = LocomotionState::at_rest(0, 0, Heading::Zero);
    st.tick(ViewMode::Front, keys(true, false, false, true), 10);
    assert_eq!(st.heading, Heading::QuarterTurn);
    assert_eq!((st.velocity_x, st.velocity_z), (2, -2));
    assert_eq!((st.x, st.z), (20, -20));
}

#[test]
fn opposite_keys_cancel_to_idle_but_turn() {
    let mut st = LocomotionState::at_rest(0, 0, Heading::QuarterTurn);
    let cmd = st.tick(ViewMode::Front, keys(true, true, false, false), 500_000);
    assert_eq!(st.gait, Gait::Idle);
    assert_eq!(st.heading, Heading::Zero);
    assert_eq!((st.x, st.z), (0, 0));
    assert_eq!(
        cmd,
        Playback { play: Gait::Idle, stop: Gait::Move, speed_permille: PLAYBACK_PERMILLE }
    );
}

#[test]
fn idle_ticks_leave_pose_unchanged() {
    let start = LocomotionState::at_rest(-3_250_000, 400_000, Heading::NegQuarterTurn);
    let mut st = start;
    for dt in [0u64, 16_667, 1_000_000, 33_333] {
        let cmd = st.tick(ViewMode::Side, NONE, dt);
        assert_eq!((st.x, st.z, st.heading), (start.x, start.z, start.heading));
        assert_eq!(st.gait, Gait::Idle);
        assert_eq!(cmd.play, Gait::Idle);
        assert_eq!(cmd.stop, Gait::Move);
    }
}

#[test]
fn same_inputs_give_same_trace() {
    let ticks = [
        (16_000u64, keys(true, false, false, false)),
        (17_000, keys(false, false, true, false)),
        (15_500, NONE),
        (16_250, keys(false, true, false, true)),
    ];
    let run = || {
        let mut st = LocomotionState::at_rest(120, -40, Heading::Zero);
        let mut out = Vec::new();
        for (dt, k) in ticks {
            let cmd = st.tick(ViewMode::Front, k, dt);
            out.push((st, cmd));
        }
        out
    };
    assert_eq!(run(), run());
}

#[test]
fn x_is_capped_at_one_unit() {
    let mut st = LocomotionState::at_rest(900_000, 0, Heading::Zero);
    st.tick(ViewMode::Front, keys(false, false, false, true), 100_000);
    assert_eq!(st.x, POSITION_CAP);
    st.tick(ViewMode::Front, keys(false, false, false, true), 100_000);
    assert_eq!(st.x, 1_000_000);
}

#[test]
fn z_is_never_capped() {
    let mut st = LocomotionState::at_rest(0, 900_000, Heading::Zero);
    st.tick(ViewMode::Front, keys(false, true, false, false), 100_000);
    assert_eq!(st.z, 1_100_000);
    let mut st = LocomotionState::at_rest(0, 900_000, Heading::Zero);
    st.tick(ViewMode::Side, keys(false, false, true, false), 100_000);
    assert_eq!(st.z, 1_100_000);
    st.tick(ViewMode::Side, NONE, 100_000);
    assert_eq!(st.z, 1_100_000);
}

#[test]
fn cap_leaves_z_and_negative_x_alone() {
    let mut st = LocomotionState::at_rest(900_000, 950_000, Heading::Zero);
    st.tick(ViewMode::Front, keys(false, true, false, true), 100_000);
    assert_eq!(st.x, 1_000_000);
    assert_eq!(st.z, 1_150_000);
    let mut st = LocomotionState::at_rest(1_000_000, 0, Heading::Zero);
    st.tick(ViewMode::Front, keys(false, false, true, false), 100_000);
    assert_eq!(st.x, 800_000);
    let mut st = LocomotionState::at_rest(-9_000_000_000, 0, Heading::Zero);
    st.tick(ViewMode::Front, keys(false, false, true, false), 1_000_000);
    assert_eq!(st.x, -9_002_000_000);
}

#[test]
fn moved_value_exactly_at_cap_is_kept() {
    let mut st = LocomotionState::at_rest(800_000, 0, Heading::Zero);
    st.tick(ViewMode::Front, keys(false, false, false, true), 100_000);
    assert_eq!(st.x, 1_000_000);
}

#[test]
fn tick_room_in_i64() {
    let st = LocomotionState::at_rest(0, 0, Heading::Zero);
    assert!(st.fits_tick(1_000_000));
    assert!(st.fits_tick(i64::MAX as u64 / 4));
    assert!(!st.fits_tick(i64::MAX as u64 / 4 + 1));
    let edge = LocomotionState::at_rest(i64::MAX - 8, 0, Heading::Zero);
    assert!(edge.fits_tick(2));
    assert!(!edge.fits_tick(3));
    let low = LocomotionState::at_rest(0, i64::MIN + 4, Heading::Zero);
    assert!(low.fits_tick(1));
    assert!(!low.fits_tick(2));
}

#[test]
fn view_toggle_keys() {
    assert_eq!(ViewMode::Front.toggled(false, true), ViewMode::Side);
    assert_eq!(ViewMode::Side.toggled(true, false), ViewMode::Front);
    assert_eq!(ViewMode::Side.toggled(false, false), ViewMode::Side);
    assert_eq!(ViewMode::Front.toggled(true, true), ViewMode::Side);
}

#[test]
fn heading_quarter_turns() {
    assert_eq!(Heading::Zero.quarter_turns(), 0);
    assert_eq!(Heading::QuarterTurn.quarter_turns(), 1);
    assert_eq!(Heading::NegQuarterTurn.quarter_turns(), -1);
    assert_eq!(Heading::HalfTurn.quarter_turns(), 2);
    assert_eq!(Heading::NegHalfTurn.quarter_turns(), -2);
}
