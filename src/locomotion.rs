use vstd::prelude::*;

verus! {

/// Which of the two fixed camera perspectives is active. It decides both
/// where the camera stands and which key drives which movement axis.
#[derive(Clone, Copy, Debug, PartialEq, Eq, Structural)]
pub enum ViewMode {
    Front,
    Side,
}

/// A facing about the vertical axis, in quarter turns.
#[derive(Clone, Copy, Debug, PartialEq, Eq, Structural)]
pub enum Heading {
    Zero,
    QuarterTurn,
    NegQuarterTurn,
    HalfTurn,
    NegHalfTurn,
}

/// The four directional keys, as held during one tick.
#[derive(Clone, Copy, Debug, PartialEq, Eq, Structural)]
pub struct Keys {
    pub w: bool,
    pub s: bool,
    pub a: bool,
    pub d: bool,
}

impl ViewMode {
    /// The view mode after this tick's toggle keys: the front key selects
    /// the front view, the side key the side view, and the side key wins when
    /// both were just pressed.
    pub fn toggled(self, front_pressed: bool, side_pressed: bool) -> (r: ViewMode)
        ensures
            r == (if side_pressed {
                ViewMode::Side
            } else if front_pressed {
                ViewMode::Front
            } else {
                self
            }),
    {
        let mut view = self;
        if front_pressed {
            view = ViewMode::Front;
        }
        if side_pressed {
            view = ViewMode::Side;
        }
        view
    }
}

impl Heading {
    pub open spec fn spec_quarter_turns(self) -> int {
        match self {
            Heading::Zero => 0,
            Heading::QuarterTurn => 1,
            Heading::NegQuarterTurn => -1,
            Heading::HalfTurn => 2,
            Heading::NegHalfTurn => -2,
        }
    }

    /// The signed number of quarter turns this heading stands for.
    pub fn quarter_turns(self) -> (r: i8)
        ensures
            r as int == self.spec_quarter_turns(),
    {
        match self {
            Heading::Zero => 0,
            Heading::QuarterTurn => 1,
            Heading::NegQuarterTurn => -1,
            Heading::HalfTurn => 2,
            Heading::NegHalfTurn => -2,
        }
    }
}


/// Speed, in world units per second, that one held key adds along its axis.
pub const WALK_SPEED: i64 = 2;

/// Largest value, in millionths of a world unit, that the x coordinate
/// keeps after a tick: one world unit. Only x is capped, and only in the
/// positive direction; z and negative x are never limited. Whether this
/// one-sided cap on a single axis is intended is an open question: it is
/// kept as it stands, not widened or removed.
pub const POSITION_CAP: i64 = 1_000_000;

/// Playback speed, in thousandths, of whichever clip a tick starts.
pub const PLAYBACK_PERMILLE: u32 = 1500;

/// The two animation states of the avatar.
#[derive(Clone, Copy, Debug, PartialEq, Eq, Structural)]
pub enum Gait {
    Idle,
    Move,
}

/// What the avatar's animation player is told after a tick: start `play`
/// repeating at `speed_permille`, and stop `stop`.
#[derive(Clone, Copy, Debug, PartialEq, Eq, Structural)]
pub struct Playback {
    pub play: Gait,
    pub stop: Gait,
    pub speed_permille: u32,
}

/// Per-avatar state of the locomotion state machine. Positions are in
/// millionths of a world unit on the two horizontal axes; velocities are in
/// world units per second.
#[derive(Clone, Copy, Debug, PartialEq, Eq, Structural)]
pub struct LocomotionState {
    pub x: i64,
    pub z: i64,
    pub velocity_x: i64,
    pub velocity_z: i64,
    pub heading: Heading,
    pub gait: Gait,
}

/// Velocity change along x and z that one held key makes in a view mode.
pub open spec fn key_step(view: ViewMode, key: int) -> (int, int) {
    match view {
        ViewMode::Front => if key == 0 {
            (0, -WALK_SPEED as int)
        } else if key == 1 {
            (0, WALK_SPEED as int)
        } else if key == 2 {
            (-WALK_SPEED as int, 0)
        } else {
            (WALK_SPEED as int, 0)
        },
        ViewMode::Side => if key == 0 {
            (-WALK_SPEED as int, 0)
        } else if key == 1 {
            (WALK_SPEED as int, 0)
        } else if key == 2 {
            (0, WALK_SPEED as int)
        } else {
            (0, -WALK_SPEED as int)
        },
    }
}

/// Facing that one held key gives in a view mode. Keys are numbered in scan
/// order: 0 for W, 1 for S, 2 for A, 3 for D.
pub open spec fn key_heading(view: ViewMode, key: int) -> Heading {
    match view {
        ViewMode::Front => if key == 0 {
            Heading::NegHalfTurn
        } else if key == 1 {
            Heading::Zero
        } else if key == 2 {
            Heading::NegQuarterTurn
        } else {
            Heading::QuarterTurn
        },
        ViewMode::Side => if key == 0 {
            Heading::NegQuarterTurn
        } else if key == 1 {
            Heading::QuarterTurn
        } else if key == 2 {
            Heading::Zero
        } else {
            Heading::HalfTurn
        },
    }
}

impl Keys {
    /// Whether the key numbered `key` in scan order (W, S, A, D) is held.
    pub open spec fn held(self, key: int) -> bool {
        if key == 0 {
            self.w
        } else if key == 1 {
            self.s
        } else if key == 2 {
            self.a
        } else {
            self.d
        }
    }

    pub open spec fn none_held(self) -> bool {
        !self.w && !self.s && !self.a && !self.d
    }
}

/// Sum of the velocity changes of the held keys among the first `n` in scan
/// order.
pub open spec fn velocity_upto(view: ViewMode, keys: Keys, n: int) -> (int, int)
    decreases n,
{
    if n <= 0 {
        (0, 0)
    } else {
        let (vx, vz) = velocity_upto(view, keys, n - 1);
        if keys.held(n - 1) {
            (vx + key_step(view, n - 1).0, vz + key_step(view, n - 1).1)
        } else {
            (vx, vz)
        }
    }
}

/// Facing after scanning the first `n` keys: the last held one wins, and
/// with none held the facing stays `start`.
pub open spec fn heading_upto(view: ViewMode, keys: Keys, start: Heading, n: int) -> Heading
    decreases n,
{
    if n <= 0 {
        start
    } else if keys.held(n - 1) {
        key_heading(view, n - 1)
    } else {
        heading_upto(view, keys, start, n - 1)
    }
}

/// The positive-direction cap applied to the x coordinate.
pub open spec fn cap_position(v: int) -> int {
    if v > POSITION_CAP {
        POSITION_CAP as int
    } else {
        v
    }
}

pub open spec fn gait_for(vx: int, vz: int) -> Gait {
    if vx == 0 && vz == 0 {
        Gait::Idle
    } else {
        Gait::Move
    }
}

pub open spec fn playback_for(gait: Gait) -> Playback {
    match gait {
        Gait::Idle => Playback { play: Gait::Idle, stop: Gait::Move, speed_permille: PLAYBACK_PERMILLE },
        Gait::Move => Playback { play: Gait::Move, stop: Gait::Idle, speed_permille: PLAYBACK_PERMILLE },
    }
}

/// The state after one tick of `dt_us` microseconds with `keys` held.
#[verifier::opaque]
pub open spec fn next_state(s: LocomotionState, view: ViewMode, keys: Keys, dt_us: int) -> LocomotionState {
    let (vx, vz) = velocity_upto(view, keys, 4);
    LocomotionState {
        x: cap_position(s.x + vx * dt_us) as i64,
        z: (s.z + vz * dt_us) as i64,
        velocity_x: vx as i64,
        velocity_z: vz as i64,
        heading: heading_upto(view, keys, s.heading, 4),
        gait: gait_for(vx, vz),
    }
}

/// The states after each of a sequence of ticks, given as pairs of elapsed
/// microseconds and held keys.
pub open spec fn trace(s: LocomotionState, view: ViewMode, ticks: Seq<(u64, Keys)>) -> Seq<LocomotionState>
    decreases ticks.len(),
{
    if ticks.len() == 0 {
        Seq::empty()
    } else {
        let n = next_state(s, view, ticks[0].1, ticks[0].0 as int);
        seq![n].add(trace(n, view, ticks.drop_first()))
    }
}

impl LocomotionState {
    /// Whether a tick of `dt_us` microseconds keeps every intermediate
    /// position within `i64`, whatever keys are held: a coordinate moves by
    /// at most twice the walking speed.
    pub open spec fn tick_fits(self, dt_us: int) -> bool {
        &&& i64::MIN <= self.x - 4 * dt_us
        &&& self.x + 4 * dt_us <= i64::MAX
        &&& i64::MIN <= self.z - 4 * dt_us
        &&& self.z + 4 * dt_us <= i64::MAX
    }

    /// Whether a tick of `dt_us` microseconds keeps every intermediate
    /// position within `i64`; `tick` may be called exactly when it holds.
    pub fn fits_tick(&self, dt_us: u64) -> (r: bool)
        ensures
            r == self.tick_fits(dt_us as int),
    {
        let reach = 4 * (dt_us as i128);
        let x = self.x as i128;
        let z = self.z as i128;
        let lo = i64::MIN as i128;
        let hi = i64::MAX as i128;
        x - reach >= lo && x + reach <= hi && z - reach >= lo && z + reach <= hi
    }

    /// An avatar at rest at the given horizontal position, facing `heading`.
    pub fn at_rest(x: i64, z: i64, heading: Heading) -> (r: LocomotionState)
        ensures
            r == (LocomotionState { x, z, velocity_x: 0, velocity_z: 0, heading, gait: Gait::Idle }),
    {
        LocomotionState { x, z, velocity_x: 0, velocity_z: 0, heading, gait: Gait::Idle }
    }

    /// Advances the avatar by one tick of `dt_us` microseconds with `keys`
    /// held, and returns what the animation player is to do.
    pub fn tick(&mut self, view: ViewMode, keys: Keys, dt_us: u64) -> (cmd: Playback)
        requires
            old(self).tick_fits(dt_us as int),
        ensures
            *final(self) == next_state(*old(self), view, keys, dt_us as int),
            cmd == playback_for(final(self).gait),
    {
        let mut vx: i64 = 0;
        let mut vz: i64 = 0;
        let mut heading = self.heading;
        let held = [keys.w, keys.s, keys.a, keys.d];
        let mut k: usize = 0;
        while k < 4
            invariant
                0 <= k <= 4,
                held@ == seq![keys.w, keys.s, keys.a, keys.d],
                (vx as int, vz as int) == velocity_upto(view, keys, k as int),
                -2 * (k as int) <= vx <= 2 * (k as int),
                -2 * (k as int) <= vz <= 2 * (k as int),
                heading == heading_upto(view, keys, old(self).heading, k as int),
            decreases 4 - k,
        {
            if held[k] {
                let (dx, dz) = step_of(view, k);
                vx = vx + dx;
                vz = vz + dz;
                heading = heading_of(view, k);
            }
            k = k + 1;
        }
        proof {
            lemma_velocity_bound(view, keys);
            lemma_displacement_bound(vx as int, dt_us as int);
            lemma_displacement_bound(vz as int, dt_us as int);
        }
        let dt = dt_us as i64;
        let mut x = self.x + vx * dt;
        if x > POSITION_CAP {
            x = POSITION_CAP;
        }
        let z = self.z + vz * dt;
        let gait = if vx == 0 && vz == 0 {
            Gait::Idle
        } else {
            Gait::Move
        };
        *self = LocomotionState { x, z, velocity_x: vx, velocity_z: vz, heading, gait };
        proof {
            reveal(next_state);
        }
        match gait {
            Gait::Idle => Playback { play: Gait::Idle, stop: Gait::Move, speed_permille: PLAYBACK_PERMILLE },
            Gait::Move => Playback { play: Gait::Move, stop: Gait::Idle, speed_permille: PLAYBACK_PERMILLE },
        }
    }
}

fn step_of(view: ViewMode, key: usize) -> (r: (i64, i64))
    requires
        key < 4,
    ensures
        (r.0 as int, r.1 as int) == key_step(view, key as int),
        -2 <= r.0 <= 2,
        -2 <= r.1 <= 2,
{
    match view {
        ViewMode::Front => if key == 0 {
            (0, -WALK_SPEED)
        } else if key == 1 {
            (0, WALK_SPEED)
        } else if key == 2 {
            (-WALK_SPEED, 0)
        } else {
            (WALK_SPEED, 0)
        },
        ViewMode::Side => if key == 0 {
            (-WALK_SPEED, 0)
        } else if key == 1 {
            (WALK_SPEED, 0)
        } else if key == 2 {
            (0, WALK_SPEED)
        } else {
            (0, -WALK_SPEED)
        },
    }
}

fn heading_of(view: ViewMode, key: usize) -> (r: Heading)
    requires
        key < 4,
    ensures
        r == key_heading(view, key as int),
{
    match view {
        ViewMode::Front => if key == 0 {
            Heading::NegHalfTurn
        } else if key == 1 {
            Heading::Zero
        } else if key == 2 {
            Heading::NegQuarterTurn
        } else {
            Heading::QuarterTurn
        },
        ViewMode::Side => if key == 0 {
            Heading::NegQuarterTurn
        } else if key == 1 {
            Heading::QuarterTurn
        } else if key == 2 {
            Heading::Zero
        } else {
            Heading::HalfTurn
        },
    }
}

proof fn lemma_velocity_bound(view: ViewMode, keys: Keys)
    ensures
        -4 <= velocity_upto(view, keys, 4).0 <= 4,
        -4 <= velocity_upto(view, keys, 4).1 <= 4,
{
    reveal_with_fuel(velocity_upto, 5);
}

proof fn lemma_displacement_bound(v: int, dt: int)
    requires
        -4 <= v <= 4,
        0 <= dt,
    ensures
        -4 * dt <= v * dt <= 4 * dt,
{
    assert(-4 * dt <= v * dt <= 4 * dt) by (nonlinear_arith)
        requires
            -4 <= v <= 4,
            0 <= dt,
    ;
}

proof fn lemma_no_keys(view: ViewMode, keys: Keys, start: Heading)
    requires
        keys.none_held(),
    ensures
        velocity_upto(view, keys, 4) == (0int, 0int),
        heading_upto(view, keys, start, 4) == start,
{
    reveal_with_fuel(velocity_upto, 5);
    reveal_with_fuel(heading_upto, 5);
}

/// With no directional key held, ticks of any length leave the position and
/// the facing as they were, and the avatar stays idle. Holds from any
/// x on or under the cap.
pub proof fn lemma_idle_ticks_keep_pose(s: LocomotionState, view: ViewMode, ticks: Seq<(u64, Keys)>)
    requires
        forall|i: int| 0 <= i < ticks.len() ==> (#[trigger] ticks[i]).1.none_held(),
        s.x <= POSITION_CAP,
    ensures
        trace(s, view, ticks).len() == ticks.len(),
        forall|i: int|
            0 <= i < ticks.len() ==> {
                let t = #[trigger] trace(s, view, ticks)[i];
                &&& t.x == s.x
                &&& t.z == s.z
                &&& t.heading == s.heading
                &&& t.gait == Gait::Idle
                &&& t.velocity_x == 0
                &&& t.velocity_z == 0
            },
    decreases ticks.len(),
{
    if ticks.len() > 0 {
        assert(ticks[0].1.none_held());
        lemma_no_keys(view, ticks[0].1, s.heading);
        reveal(next_state);
        let n = next_state(s, view, ticks[0].1, ticks[0].0 as int);
        let rest = ticks.drop_first();
        assert forall|i: int| 0 <= i < rest.len() implies (#[trigger] rest[i]).1.none_held() by {
            assert(rest[i] == ticks[i + 1]);
        }
        lemma_idle_ticks_keep_pose(n, view, rest);
        let tr = trace(s, view, ticks);
        assert forall|i: int| 0 <= i < ticks.len() implies {
            let t = #[trigger] tr[i];
            &&& t.x == s.x
            &&& t.z == s.z
            &&& t.heading == s.heading
            &&& t.gait == Gait::Idle
            &&& t.velocity_x == 0
            &&& t.velocity_z == 0
        } by {
            if i > 0 {
                assert(tr[i] == trace(n, view, rest)[i - 1]);
            } else {
                assert(0 * (ticks[0].0 as int) == 0);
                assert(tr[0] == n);
            }
        }
    }
}

/// Locomotion is deterministic: avatars that start in the same state, under
/// the same view mode, and receive the same sequence of elapsed times and held
/// keys pass through exactly the same states, one per tick, each the result
/// of a single tick from the one before.
pub proof fn lemma_trace_deterministic(
    s1: LocomotionState,
    s2: LocomotionState,
    view: ViewMode,
    ticks: Seq<(u64, Keys)>,
)
    requires
        s1 == s2,
    ensures
        trace(s1, view, ticks) == trace(s2, view, ticks),
        trace(s1, view, ticks).len() == ticks.len(),
        ticks.len() > 0 ==> trace(s1, view, ticks)[0] == next_state(
            s1,
            view,
            ticks[0].1,
            ticks[0].0 as int,
        ),
        forall|i: int|
            0 < i < ticks.len() ==> #[trigger] trace(s1, view, ticks)[i] == next_state(
                trace(s1, view, ticks)[i - 1],
                view,
                ticks[i].1,
                ticks[i].0 as int,
            ),
    decreases ticks.len(),
{
    if ticks.len() > 0 {
        let n = next_state(s1, view, ticks[0].1, ticks[0].0 as int);
        let rest = ticks.drop_first();
        lemma_trace_deterministic(n, n, view, rest);
        let tr = trace(s1, view, ticks);
        let tail = trace(n, view, rest);
        assert forall|i: int| 0 < i < ticks.len() implies #[trigger] tr[i] == next_state(
            tr[i - 1],
            view,
            ticks[i].1,
            ticks[i].0 as int,
        ) by {
            assert(tr[i] == tail[i - 1]);
            assert(rest[i - 1] == ticks[i]);
            if i > 1 {
                assert(tr[i - 1] == tail[i - 2]);
            }
        }
    }
}

/// The cap on x: after a tick x is at most one world unit; where moving would
/// carry it past, it is exactly the cap; otherwise it is the moved value,
/// however far negative. z is the moved value, never capped, above one
/// world unit included.
pub proof fn lemma_position_cap(s: LocomotionState, view: ViewMode, keys: Keys, dt_us: u64)
    requires
        s.tick_fits(dt_us as int),
    ensures
        ({
            let n = next_state(s, view, keys, dt_us as int);
            let moved_x = s.x + n.velocity_x * dt_us;
            let moved_z = s.z + n.velocity_z * dt_us;
            &&& n.x <= POSITION_CAP
            &&& moved_x > POSITION_CAP ==> n.x == POSITION_CAP
            &&& moved_x <= POSITION_CAP ==> n.x == moved_x
            &&& n.z == moved_z
        }),
{
    reveal(next_state);
    let (vx, vz) = velocity_upto(view, keys, 4);
    lemma_velocity_bound(view, keys);
    lemma_displacement_bound(vx, dt_us as int);
    lemma_displacement_bound(vz, dt_us as int);
}

} // verus!
