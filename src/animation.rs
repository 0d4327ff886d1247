use vstd::prelude::*;

use crate::locomotion::Gait;
use crate::scene::{playables_upto, SceneGraph};

verus! {

/// The gait a rig starts playing when its scene is ready. Which gait starts
/// is an open question (idle and move have both been used); move is kept,
/// pending a decision.
pub const STARTING_GAIT: Gait = Gait::Move;

impl Gait {
    /// Position of the gait in the list of clip indices: idle first, then
    /// move.
    pub open spec fn spec_slot(self) -> int {
        match self {
            Gait::Idle => 0,
            Gait::Move => 1,
        }
    }

    pub fn slot(self) -> (r: usize)
        ensures
            r == self.spec_slot(),
    {
        match self {
            Gait::Idle => 0,
            Gait::Move => 1,
        }
    }
}

/// The graph node that plays `gait`, given the clip indices of the idle and
/// move clips in that order.
pub fn gait_node(indices: &Vec<usize>, gait: Gait) -> (r: usize)
    requires
        indices@.len() >= 2,
    ensures
        r == indices@[gait.spec_slot()],
{
    indices[gait.slot()]
}

/// What binding a character's animations does to one playable rig node:
/// the graph is attached to `node`, which starts `start` repeating and is
/// tagged as the character's player.
#[derive(Clone, Copy, Debug, PartialEq, Eq, Structural)]
pub struct RigBinding {
    pub node: usize,
    pub start: usize,
}

pub open spec fn bindings_for(nodes: Seq<usize>, start: usize) -> Seq<RigBinding> {
    Seq::new(nodes.len(), |i: int| RigBinding { node: nodes[i], start })
}

/// Once the character scene under `root` is ready: every live playable node
/// below it, in creation order, gets the graph and starts the starting gait.
/// With no playable node there is nothing to do.
pub fn bind_rigs(scene: &SceneGraph, root: usize, indices: &Vec<usize>) -> (r: Vec<RigBinding>)
    requires
        indices@.len() >= 2,
    ensures
        r@ == bindings_for(
            playables_upto(scene.nodes(), root as int, scene.nodes().len() as int),
            indices@[STARTING_GAIT.spec_slot()],
        ),
{
    let players = scene.playable_descendants(root);
    let start = gait_node(indices, STARTING_GAIT);
    let mut r: Vec<RigBinding> = Vec::new();
    let mut i: usize = 0;
    while i < players.len()
        invariant
            i <= players@.len(),
            start == indices@[STARTING_GAIT.spec_slot()],
            r@ == bindings_for(players@.take(i as int), start),
        decreases players@.len() - i,
    {
        r.push(RigBinding { node: players[i], start });
        i = i + 1;
        assert(r@ =~= bindings_for(players@.take(i as int), start));
    }
    assert(players@.take(players@.len() as int) =~= players@);
    r
}

} // verus!
