use vstd::prelude::*;

verus! {

/// Number of prepass debug views the cycle goes through: the scene itself,
/// depth, normals and motion vectors.
pub const PREPASS_VIEW_COUNT: u32 = 4;

/// The flags handed to the prepass debug shader; exactly one of the three
/// `show_` flags is 1 in a debug view, and none in the plain view.
#[derive(Clone, Copy, Debug, PartialEq, Eq, Structural)]
pub struct ShowPrepassSettings {
    pub show_depth: u32,
    pub show_normals: u32,
    pub show_motion_vectors: u32,
    pub padding_1: u32,
    pub padding_2: u32,
}

/// The debug view that follows `view` in the cycle.
pub fn next_prepass_view(view: u32) -> (r: u32)
    requires
        view < u32::MAX,
    ensures
        r == (view + 1) % (PREPASS_VIEW_COUNT as int),
        r < PREPASS_VIEW_COUNT,
{
    (view + 1) % PREPASS_VIEW_COUNT
}

/// The shader flags for debug view `view`: 1 selects depth, 2 normals and 3
/// motion vectors.
pub fn prepass_settings(view: u32) -> (r: ShowPrepassSettings)
    ensures
        r.show_depth == (if view == 1 { 1u32 } else { 0u32 }),
        r.show_normals == (if view == 2 { 1u32 } else { 0u32 }),
        r.show_motion_vectors == (if view == 3 { 1u32 } else { 0u32 }),
        r.padding_1 == 0,
        r.padding_2 == 0,
{
    ShowPrepassSettings {
        show_depth: if view == 1 { 1 } else { 0 },
        show_normals: if view == 2 { 1 } else { 0 },
        show_motion_vectors: if view == 3 { 1 } else { 0 },
        padding_1: 0,
        padding_2: 0,
    }
}

} // verus!
