use vstd::prelude::*;

verus! {

/// Largest number of nodes a scene graph holds.
pub const MAX_NODES: usize = 1048576;

/// Largest magnitude of a coordinate of a node's translation, in millionths
/// of a world unit. With at most `MAX_NODES` nodes on a chain of ancestors,
/// any sum of translations stays far inside `i64`.
pub const MAX_COORD: i64 = 1099511627776;

/// A point or a translation in world space, in millionths of a world unit.
#[derive(Clone, Copy, Debug, PartialEq, Eq, Structural)]
pub struct Position {
    pub x: i64,
    pub y: i64,
    pub z: i64,
}

/// A color as linear RGBA channels, in millionths. Channels above one
/// million (high dynamic range) and below zero are kept as they are.
#[derive(Clone, Copy, Debug, PartialEq, Eq, Structural)]
pub struct LightColor {
    pub red: i64,
    pub green: i64,
    pub blue: i64,
    pub alpha: i64,
}

/// Authoring-time intent attached to a scene node, consumed when the scene
/// is converted into runtime objects.
#[derive(Clone, Copy, Debug, PartialEq, Eq, Structural)]
pub enum Marker {
    /// A point light belongs at the position of the marked node's parent.
    /// The intensity is in lumens.
    Lamp { intensity: u64, color: LightColor },
    /// Constant rotation about each axis, in thousandths of a turn per
    /// second.
    Spin { x: i64, y: i64, z: i64 },
    /// Where a camera is anchored.
    CameraAnchor,
    /// Where the player avatar is anchored.
    PlayerAnchor,
}

/// One node of the scene graph. `parent` is a lookup-only link to an earlier
/// node; `translation` is the placement relative to the parent, absent where
/// the node has no transform; `playable` marks a rig node that accepts
/// play and stop commands; `alive` is cleared when the node is despawned.
#[derive(Clone, Copy, Debug, PartialEq, Eq, Structural)]
pub struct SceneNode {
    pub parent: Option<usize>,
    pub translation: Option<Position>,
    pub marker: Option<Marker>,
    pub playable: bool,
    pub alive: bool,
}

/// A live point light, placed once at conversion time.
#[derive(Clone, Copy, Debug, PartialEq, Eq, Structural)]
pub struct RuntimeLight {
    pub intensity: u64,
    pub color: LightColor,
    pub position: Position,
    pub shadows_enabled: bool,
}

/// An arena of scene nodes indexed by creation order, with the runtime
/// lights spawned into the same world. Every parent is created before its
/// children, so the parent links form a forest.
pub struct SceneGraph {
    nodes: Vec<SceneNode>,
    lights: Vec<RuntimeLight>,
}

pub open spec fn coord_ok(v: i64) -> bool {
    -MAX_COORD <= v <= MAX_COORD
}

/// Well-formedness of a node arena: bounded size, parents before children,
/// bounded translations.
pub open spec fn nodes_wf(nodes: Seq<SceneNode>) -> bool {
    &&& nodes.len() <= MAX_NODES
    &&& forall|i: int|
        0 <= i < nodes.len() ==> {
            let n = #[trigger] nodes[i];
            &&& (n.parent matches Some(p) ==> p < i)
            &&& (n.translation matches Some(t) ==> coord_ok(t.x) && coord_ok(t.y) && coord_ok(t.z))
        }
}

/// Whether node `j` lies strictly below node `root`.
pub open spec fn is_descendant(nodes: Seq<SceneNode>, root: int, j: int) -> bool
    decreases j,
{
    if 0 <= j < nodes.len() {
        match nodes[j].parent {
            Some(p) => if (p as int) < j {
                p == root || is_descendant(nodes, root, p as int)
            } else {
                false
            },
            None => false,
        }
    } else {
        false
    }
}

/// A live node strictly below `root`.
pub open spec fn in_subtree(nodes: Seq<SceneNode>, root: int, j: int) -> bool {
    0 <= j < nodes.len() && nodes[j].alive && is_descendant(nodes, root, j)
}

/// The live playable nodes strictly below `root` among the first `n`, in
/// creation order.
pub open spec fn playables_upto(nodes: Seq<SceneNode>, root: int, n: int) -> Seq<usize>
    decreases n,
{
    if n <= 0 {
        Seq::empty()
    } else if in_subtree(nodes, root, n - 1) && nodes[n - 1].playable {
        playables_upto(nodes, root, n - 1).push((n - 1) as usize)
    } else {
        playables_upto(nodes, root, n - 1)
    }
}

/// The live nodes strictly below `root` among the first `n`, in creation
/// order.
pub open spec fn subtree_upto(nodes: Seq<SceneNode>, root: int, n: int) -> Seq<usize>
    decreases n,
{
    if n <= 0 {
        Seq::empty()
    } else if in_subtree(nodes, root, n - 1) {
        subtree_upto(nodes, root, n - 1).push((n - 1) as usize)
    } else {
        subtree_upto(nodes, root, n - 1)
    }
}

pub open spec fn pos_int(p: Position) -> (int, int, int) {
    (p.x as int, p.y as int, p.z as int)
}

pub open spec fn shift(w: Option<(int, int, int)>, d: (int, int, int)) -> Option<(int, int, int)> {
    match w {
        Some(v) => Some((v.0 + d.0, v.1 + d.1, v.2 + d.2)),
        None => None,
    }
}

/// World position of node `i`: its translation plus those of all its
/// ancestors. Nodes carry translations only, so an ancestor's rotation and
/// scale do not enter: this is the world transform of a hierarchy that is
/// neither rotated nor scaled. It does not resolve where the node or an
/// ancestor is despawned or has no transform.
pub open spec fn world_position(nodes: Seq<SceneNode>, i: int) -> Option<(int, int, int)>
    decreases i,
{
    if 0 <= i < nodes.len() && nodes[i].alive {
        match nodes[i].translation {
            None => None,
            Some(t) => match nodes[i].parent {
                None => Some(pos_int(t)),
                Some(p) => if (p as int) < i {
                    shift(world_position(nodes, p as int), pos_int(t))
                } else {
                    None
                },
            },
        }
    } else {
        None
    }
}

/// World position of the parent of node `j`, where it resolves.
pub open spec fn parent_position(nodes: Seq<SceneNode>, j: int) -> Option<(int, int, int)> {
    match nodes[j].parent {
        Some(p) => world_position(nodes, p as int),
        None => None,
    }
}

pub open spec fn is_lamp(n: SceneNode) -> bool {
    n.marker matches Some(Marker::Lamp { .. })
}

/// The light that a lamp marker on node `j` turns into, if its parent's
/// position resolves.
pub open spec fn light_of(nodes: Seq<SceneNode>, j: int) -> Option<RuntimeLight> {
    match (nodes[j].marker, parent_position(nodes, j)) {
        (Some(Marker::Lamp { intensity, color }), Some(w)) => Some(
            RuntimeLight {
                intensity,
                color,
                position: Position { x: w.0 as i64, y: w.1 as i64, z: w.2 as i64 },
                shadows_enabled: true,
            },
        ),
        _ => None,
    }
}

/// The lights spawned for the nodes of `s`, in order.
pub open spec fn lights_from(nodes: Seq<SceneNode>, s: Seq<usize>) -> Seq<RuntimeLight>
    decreases s.len(),
{
    if s.len() == 0 {
        Seq::empty()
    } else {
        let prev = lights_from(nodes, s.drop_last());
        match light_of(nodes, s.last() as int) {
            Some(l) => prev.push(l),
            None => prev,
        }
    }
}

/// Number of nodes of `s` that carry a lamp marker.
pub open spec fn lamp_count(nodes: Seq<SceneNode>, s: Seq<usize>) -> nat
    decreases s.len(),
{
    if s.len() == 0 {
        0
    } else {
        lamp_count(nodes, s.drop_last()) + if is_lamp(nodes[s.last() as int]) {
            1nat
        } else {
            0nat
        }
    }
}

/// Whether node `j` is removed along with one of the lamp markers among `s`:
/// it is such a marker node or lies below one.
pub open spec fn removed_with_lamps(nodes: Seq<SceneNode>, s: Seq<usize>, j: int) -> bool {
    exists|i: int|
        0 <= i < s.len() && is_lamp(nodes[#[trigger] s[i] as int]) && (j == s[i] || is_descendant(
            nodes,
            s[i] as int,
            j,
        ))
}

pub open spec fn despawned(n: SceneNode) -> SceneNode {
    SceneNode { alive: false, ..n }
}

/// The nodes after despawning `id` and everything below it.
pub open spec fn without_subtree(nodes: Seq<SceneNode>, id: int) -> Seq<SceneNode> {
    Seq::new(
        nodes.len(),
        |j: int|
            if j == id || is_descendant(nodes, id, j) {
                despawned(nodes[j])
            } else {
                nodes[j]
            },
    )
}

/// The nodes after converting the lamp markers below `root`.
pub open spec fn after_lamp_conversion(nodes: Seq<SceneNode>, root: int) -> Seq<SceneNode> {
    let s = subtree_upto(nodes, root, nodes.len() as int);
    Seq::new(
        nodes.len(),
        |j: int|
            if removed_with_lamps(nodes, s, j) {
                despawned(nodes[j])
            } else {
                nodes[j]
            },
    )
}

/// Two arenas with the same nodes but for which ones are alive.
pub open spec fn same_shape(a: Seq<SceneNode>, b: Seq<SceneNode>) -> bool {
    &&& a.len() == b.len()
    &&& forall|j: int|
        0 <= j < a.len() ==> #[trigger] a[j] == b[j] || a[j] == despawned(b[j]) || despawned(a[j])
            == b[j]
}

proof fn lemma_descendant_same_shape(a: Seq<SceneNode>, b: Seq<SceneNode>, root: int, j: int)
    requires
        same_shape(a, b),
    ensures
        is_descendant(a, root, j) == is_descendant(b, root, j),
    decreases j,
{
    if 0 <= j < a.len() {
        assert(a[j].parent == b[j].parent);
        if let Some(p) = a[j].parent {
            if (p as int) < j {
                lemma_descendant_same_shape(a, b, root, p as int);
            }
        }
    }
}

proof fn lemma_subtree_members(nodes: Seq<SceneNode>, root: int, n: int)
    requires
        n <= nodes.len() <= MAX_NODES,
    ensures
        forall|k: int|
            0 <= k < subtree_upto(nodes, root, n).len() ==> {
                let j = #[trigger] subtree_upto(nodes, root, n)[k];
                &&& j < n
                &&& in_subtree(nodes, root, j as int)
            },
    decreases n,
{
    if n > 0 {
        lemma_subtree_members(nodes, root, n - 1);
        let prev = subtree_upto(nodes, root, n - 1);
        let cur = subtree_upto(nodes, root, n);
        assert forall|k: int| 0 <= k < cur.len() implies {
            let j = #[trigger] cur[k];
            &&& j < n
            &&& in_subtree(nodes, root, j as int)
        } by {
            if k < prev.len() {
                assert(cur[k] == prev[k]);
            }
        }
    }
}

proof fn lemma_subtree_complete(nodes: Seq<SceneNode>, root: int, n: int, j: int) -> (k: int)
    requires
        n <= nodes.len() <= MAX_NODES,
        0 <= j < n,
        in_subtree(nodes, root, j),
    ensures
        0 <= k < subtree_upto(nodes, root, n).len(),
        subtree_upto(nodes, root, n)[k] == j,
    decreases n,
{
    let prev = subtree_upto(nodes, root, n - 1);
    if j == n - 1 {
        prev.len() as int
    } else {
        let k = lemma_subtree_complete(nodes, root, n - 1, j);
        assert(subtree_upto(nodes, root, n)[k] == prev[k]);
        k
    }
}

/// No more lights come from the nodes of `s` than lamp markers stand among
/// them; as many when every marker's parent resolves, and fewer when one
/// does not.
proof fn lemma_light_count(nodes: Seq<SceneNode>, s: Seq<usize>)
    ensures
        lights_from(nodes, s).len() <= lamp_count(nodes, s),
        (forall|k: int|
            0 <= k < s.len() && is_lamp(nodes[#[trigger] s[k] as int]) ==> parent_position(
                nodes,
                s[k] as int,
            ) is Some) ==> lights_from(nodes, s).len() == lamp_count(nodes, s),
        (exists|k: int|
            0 <= k < s.len() && is_lamp(nodes[#[trigger] s[k] as int]) && parent_position(
                nodes,
                s[k] as int,
            ) is None) ==> lights_from(nodes, s).len() < lamp_count(nodes, s),
    decreases s.len(),
{
    if s.len() > 0 {
        let p = s.drop_last();
        lemma_light_count(nodes, p);
        if forall|k: int|
            0 <= k < s.len() && is_lamp(nodes[#[trigger] s[k] as int]) ==> parent_position(
                nodes,
                s[k] as int,
            ) is Some {
            assert forall|k: int|
                0 <= k < p.len() && is_lamp(nodes[#[trigger] p[k] as int]) implies parent_position(
                nodes,
                p[k] as int,
            ) is Some by {
                assert(p[k] == s[k]);
            }
            assert(is_lamp(nodes[s[s.len() - 1] as int]) ==> parent_position(
                nodes,
                s[s.len() - 1] as int,
            ) is Some);
        }
        if exists|k: int|
            0 <= k < s.len() && is_lamp(nodes[#[trigger] s[k] as int]) && parent_position(
                nodes,
                s[k] as int,
            ) is None {
            let k = choose|k: int|
                0 <= k < s.len() && is_lamp(nodes[#[trigger] s[k] as int]) && parent_position(
                    nodes,
                    s[k] as int,
                ) is None;
            if k < p.len() {
                assert(p[k] == s[k]);
            }
        }
    }
}

/// When every lamp marker below `root` has a parent whose position resolves,
/// the conversion spawns exactly one light per marker, and afterwards no
/// live node below `root` carries a lamp marker.
pub proof fn lemma_resolvable_lamps_all_convert(nodes: Seq<SceneNode>, root: int)
    requires
        nodes_wf(nodes),
        forall|j: int|
            in_subtree(nodes, root, j) && is_lamp(#[trigger] nodes[j]) ==> parent_position(
                nodes,
                j,
            ) is Some,
    ensures
        ({
            let s = subtree_upto(nodes, root, nodes.len() as int);
            lights_from(nodes, s).len() == lamp_count(nodes, s)
        }),
        forall|j: int|
            #![trigger after_lamp_conversion(nodes, root)[j]]
            in_subtree(after_lamp_conversion(nodes, root), root, j) ==> !is_lamp(
                after_lamp_conversion(nodes, root)[j],
            ),
{
    let s = subtree_upto(nodes, root, nodes.len() as int);
    let after = after_lamp_conversion(nodes, root);
    lemma_subtree_members(nodes, root, nodes.len() as int);
    assert forall|k: int|
        0 <= k < s.len() && is_lamp(nodes[#[trigger] s[k] as int]) implies parent_position(
        nodes,
        s[k] as int,
    ) is Some by {
        assert(in_subtree(nodes, root, s[k] as int));
    }
    lemma_light_count(nodes, s);
    assert(same_shape(after, nodes));
    assert forall|j: int|
        #![trigger after_lamp_conversion(nodes, root)[j]]
        in_subtree(after, root, j) implies !is_lamp(after[j]) by {
        lemma_descendant_same_shape(after, nodes, root, j);
        if is_lamp(after[j]) {
            assert(in_subtree(nodes, root, j));
            let k = lemma_subtree_complete(nodes, root, nodes.len() as int, j);
            assert(is_lamp(nodes[s[k] as int]));
            assert(removed_with_lamps(nodes, s, j));
        }
    }
}

/// A lamp marker below `root` whose parent's position does not resolve
/// spawns no light (fewer lights come out than markers stood below `root`),
/// and its node is still despawned.
pub proof fn lemma_unresolved_lamp_removed(nodes: Seq<SceneNode>, root: int, k: int)
    requires
        nodes_wf(nodes),
        in_subtree(nodes, root, k),
        is_lamp(nodes[k]),
        parent_position(nodes, k) is None,
    ensures
        !after_lamp_conversion(nodes, root)[k].alive,
        ({
            let s = subtree_upto(nodes, root, nodes.len() as int);
            lights_from(nodes, s).len() < lamp_count(nodes, s)
        }),
{
    let s = subtree_upto(nodes, root, nodes.len() as int);
    let i = lemma_subtree_complete(nodes, root, nodes.len() as int, k);
    assert(is_lamp(nodes[s[i] as int]) && parent_position(nodes, s[i] as int) is None);
    lemma_light_count(nodes, s);
    assert(removed_with_lamps(nodes, s, k));
}

impl View for SceneGraph {
    type V = (Seq<SceneNode>, Seq<RuntimeLight>);

    closed spec fn view(&self) -> (Seq<SceneNode>, Seq<RuntimeLight>) {
        (self.nodes@, self.lights@)
    }
}

impl SceneGraph {
    /// The nodes, indexed by identity.
    pub open spec fn nodes(&self) -> Seq<SceneNode> {
        self@.0
    }

    /// The runtime lights spawned so far, in spawn order.
    pub open spec fn lights(&self) -> Seq<RuntimeLight> {
        self@.1
    }

    pub open spec fn wf(&self) -> bool {
        nodes_wf(self.nodes())
    }

    /// An empty world.
    pub fn new() -> (g: SceneGraph)
        ensures
            g.wf(),
            g.nodes() == Seq::<SceneNode>::empty(),
            g.lights() == Seq::<RuntimeLight>::empty(),
    {
        SceneGraph { nodes: Vec::new(), lights: Vec::new() }
    }

    /// Adds a live node under `parent` (a root where it is `None`) and returns
    /// its identity.
    pub fn add_node(
        &mut self,
        parent: Option<usize>,
        translation: Option<Position>,
        marker: Option<Marker>,
        playable: bool,
    ) -> (id: usize)
        requires
            old(self).wf(),
            old(self).nodes().len() < MAX_NODES,
            parent matches Some(p) ==> p < old(self).nodes().len(),
            translation matches Some(t) ==> coord_ok(t.x) && coord_ok(t.y) && coord_ok(t.z),
        ensures
            final(self).wf(),
            id == old(self).nodes().len(),
            final(self).nodes() == old(self).nodes().push(
                SceneNode { parent, translation, marker, playable, alive: true },
            ),
            final(self).lights() == old(self).lights(),
    {
        let id = self.nodes.len();
        self.nodes.push(SceneNode { parent, translation, marker, playable, alive: true });
        proof {
            let nodes = self.nodes@;
            assert forall|i: int| 0 <= i < nodes.len() implies {
                let n = #[trigger] nodes[i];
                &&& (n.parent matches Some(p) ==> p < i)
                &&& (n.translation matches Some(t) ==> coord_ok(t.x) && coord_ok(t.y) && coord_ok(t.z))
            } by {
                if i < id {
                    assert(nodes[i] == old(self).nodes()[i]);
                }
            }
        }
        id
    }

    /// Number of nodes ever added, despawned ones included.
    pub fn node_count(&self) -> (r: usize)
        ensures
            r == self.nodes().len(),
    {
        self.nodes.len()
    }

    /// The node with identity `id`.
    pub fn node(&self, id: usize) -> (r: SceneNode)
        requires
            id < self.nodes().len(),
        ensures
            r == self.nodes()[id as int],
    {
        self.nodes[id]
    }

    /// The runtime lights spawned so far.
    pub fn runtime_lights(&self) -> (r: &Vec<RuntimeLight>)
        ensures
            r@ == self.lights(),
    {
        &self.lights
    }

    /// World position of node `id`, where it resolves: the sum of the
    /// translations of the node and its ancestors, without their rotation or
    /// scale.
    pub fn world_position(&self, id: usize) -> (r: Option<Position>)
        requires
            self.wf(),
            id < self.nodes().len(),
        ensures
            world_position(self.nodes(), id as int) == match r {
                Some(p) => Some(pos_int(p)),
                None => None,
            },
    {
        let ghost nodes = self.nodes@;
        let mut cur: usize = id;
        let mut ax: i64 = 0;
        let mut ay: i64 = 0;
        let mut az: i64 = 0;
        loop
            invariant
                nodes == self.nodes@,
                nodes_wf(nodes),
                cur <= id < nodes.len(),
                world_position(nodes, id as int) == shift(
                    world_position(nodes, cur as int),
                    (ax as int, ay as int, az as int),
                ),
                -(id - cur) * 1099511627776 <= ax <= (id - cur) * 1099511627776,
                -(id - cur) * 1099511627776 <= ay <= (id - cur) * 1099511627776,
                -(id - cur) * 1099511627776 <= az <= (id - cur) * 1099511627776,
            decreases cur,
        {
            let node = self.nodes[cur];
            assert(node == nodes[cur as int]);
            if !node.alive {
                return None;
            }
            match node.translation {
                None => {
                    return None;
                },
                Some(t) => {
                    assert(coord_ok(t.x) && coord_ok(t.y) && coord_ok(t.z));
                    assert(id < MAX_NODES);
                    ax = ax + t.x;
                    ay = ay + t.y;
                    az = az + t.z;
                    match node.parent {
                        None => {
                            return Some(Position { x: ax, y: ay, z: az });
                        },
                        Some(p) => {
                            assert(p < cur);
                            cur = p;
                        },
                    }
                },
            }
        }
    }

    /// Despawns node `id` and every node below it.
    pub fn despawn_subtree(&mut self, id: usize)
        requires
            old(self).wf(),
        ensures
            final(self).wf(),
            final(self).nodes() == without_subtree(old(self).nodes(), id as int),
            final(self).lights() == old(self).lights(),
    {
        let marks = self.below_marks(id);
        let ghost before = self.nodes@;
        let n = self.nodes.len();
        let mut j: usize = 0;
        while j < n
            invariant
                n == before.len(),
                self.nodes@.len() == n,
                j <= n,
                marks@.len() == n,
                self.lights@ == old(self).lights@,
                before == old(self).nodes@,
                forall|k: int| 0 <= k < n ==> #[trigger] marks@[k] == is_descendant(before, id as int, k),
                forall|k: int|
                    0 <= k < n ==> #[trigger] self.nodes@[k] == if k < j && (k == id || is_descendant(
                        before,
                        id as int,
                        k,
                    )) {
                        despawned(before[k])
                    } else {
                        before[k]
                    },
            decreases n - j,
        {
            if j == id || marks[j] {
                let mut node = self.nodes[j];
                node.alive = false;
                self.nodes.set(j, node);
            }
            j = j + 1;
        }
        assert(self.nodes@ =~= without_subtree(before, id as int));
    }

    /// Converts every lamp marker on a live node below `root` into a runtime
    /// light and removes the markers.
    ///
    /// The markers are visited in creation order. Each one whose parent's
    /// world position resolves spawns a shadow-casting light of the marker's
    /// intensity and color at that position; one whose parent does not
    /// resolve spawns nothing. The position is the sum of translations up
    /// the chain of ancestors (see `world_position`); their rotation and scale
    /// are not applied. Positions are read from the scene as it was
    /// before the pass, so no conversion depends on another. Then every
    /// marker node is despawned together with everything below it.
    pub fn convert_lamps(&mut self, root: usize)
        requires
            old(self).wf(),
        ensures
            final(self).wf(),
            final(self).nodes() == after_lamp_conversion(old(self).nodes(), root as int),
            final(self).lights() == old(self).lights() + lights_from(
                old(self).nodes(),
                subtree_upto(old(self).nodes(), root as int, old(self).nodes().len() as int),
            ),
    {
        let ghost before = self.nodes@;
        let ds = self.descendants(root);
        let ghost s = ds@;
        proof {
            lemma_subtree_members(before, root as int, before.len() as int);
        }
        let mut i: usize = 0;
        while i < ds.len()
            invariant
                self.nodes@ == before,
                nodes_wf(before),
                ds@ == s,
                i <= s.len(),
                forall|k: int| 0 <= k < s.len() ==> #[trigger] s[k] < before.len(),
                self.lights@ == old(self).lights@ + lights_from(before, s.take(i as int)),
            decreases s.len() - i,
        {
            let j = ds[i];
            let node = self.nodes[j];
            assert(s.take(i + 1).drop_last() =~= s.take(i as int));
            assert(s.take(i + 1).last() == j);
            if let Some(Marker::Lamp { intensity, color }) = node.marker {
                if let Some(p) = node.parent {
                    assert(before[j as int] == node);
                    if let Some(at) = self.world_position(p) {
                        self.lights.push(
                            RuntimeLight { intensity, color, position: at, shadows_enabled: true },
                        );
                    }
                }
            }
            assert(self.lights@ =~= old(self).lights@ + lights_from(before, s.take(i + 1)));
            i = i + 1;
        }
        assert(s.take(s.len() as int) =~= s);
        let ghost lit = self.lights@;
        i = 0;
        while i < ds.len()
            invariant
                nodes_wf(before),
                nodes_wf(self.nodes@),
                ds@ == s,
                i <= s.len(),
                forall|k: int| 0 <= k < s.len() ==> #[trigger] s[k] < before.len(),
                self.lights@ == lit,
                self.nodes@.len() == before.len(),
                forall|k: int|
                    0 <= k < before.len() ==> #[trigger] self.nodes@[k] == if removed_with_lamps(
                        before,
                        s.take(i as int),
                        k,
                    ) {
                        despawned(before[k])
                    } else {
                        before[k]
                    },
            decreases s.len() - i,
        {
            let j = ds[i];
            let ghost cur = self.nodes@;
            assert(same_shape(cur, before)) by {
                assert forall|k: int| 0 <= k < cur.len() implies #[trigger] cur[k] == before[k]
                    || cur[k] == despawned(before[k]) || despawned(cur[k]) == before[k] by {
                    assert(cur[k] == if removed_with_lamps(before, s.take(i as int), k) {
                        despawned(before[k])
                    } else {
                        before[k]
                    });
                }
            }
            assert(cur[j as int].marker == before[j as int].marker);
            if let Some(Marker::Lamp { .. }) = self.nodes[j].marker {
                self.despawn_subtree(j);
                assert forall|k: int| 0 <= k < before.len() implies #[trigger] self.nodes@[k]
                    == if removed_with_lamps(before, s.take(i + 1), k) {
                    despawned(before[k])
                } else {
                    before[k]
                } by {
                    lemma_descendant_same_shape(cur, before, j as int, k);
                    let t = s.take(i + 1);
                    assert(t[i as int] == j);
                    if removed_with_lamps(before, s.take(i as int), k) {
                        let w = choose|w: int|
                            0 <= w < s.take(i as int).len() && is_lamp(
                                before[#[trigger] s.take(i as int)[w] as int],
                            ) && (k == s.take(i as int)[w] || is_descendant(
                                before,
                                s.take(i as int)[w] as int,
                                k,
                            ));
                        assert(t[w] == s.take(i as int)[w]);
                    }
                    if k == j || is_descendant(before, j as int, k) {
                        assert(is_lamp(before[t[i as int] as int]));
                    }
                    if removed_with_lamps(before, t, k) {
                        let w = choose|w: int|
                            0 <= w < t.len() && is_lamp(before[#[trigger] t[w] as int]) && (k
                                == t[w] || is_descendant(before, t[w] as int, k));
                        if w < i {
                            assert(s.take(i as int)[w] == t[w]);
                        }
                    }
                }
            } else {
                assert forall|k: int| 0 <= k < before.len() implies #[trigger] self.nodes@[k]
                    == if removed_with_lamps(before, s.take(i + 1), k) {
                    despawned(before[k])
                } else {
                    before[k]
                } by {
                    let t = s.take(i + 1);
                    if removed_with_lamps(before, t, k) {
                        let w = choose|w: int|
                            0 <= w < t.len() && is_lamp(before[#[trigger] t[w] as int]) && (k
                                == t[w] || is_descendant(before, t[w] as int, k));
                        assert(w != i);
                        assert(s.take(i as int)[w] == t[w]);
                    }
                    if removed_with_lamps(before, s.take(i as int), k) {
                        let w = choose|w: int|
                            0 <= w < s.take(i as int).len() && is_lamp(
                                before[#[trigger] s.take(i as int)[w] as int],
                            ) && (k == s.take(i as int)[w] || is_descendant(
                                before,
                                s.take(i as int)[w] as int,
                                k,
                            ));
                        assert(t[w] == s.take(i as int)[w]);
                    }
                }
            }
            i = i + 1;
        }
        assert(self.nodes@ =~= after_lamp_conversion(before, root as int));
    }

    /// The live playable nodes strictly below `root`, in creation order.
    pub fn playable_descendants(&self, root: usize) -> (r: Vec<usize>)
        ensures
            r@ == playables_upto(self.nodes(), root as int, self.nodes().len() as int),
    {
        let marks = self.below_marks(root);
        let n = self.nodes.len();
        let mut r: Vec<usize> = Vec::new();
        let mut j: usize = 0;
        while j < n
            invariant
                n == self.nodes@.len(),
                j <= n,
                marks@.len() == n,
                forall|k: int|
                    0 <= k < n ==> #[trigger] marks@[k] == is_descendant(self.nodes@, root as int, k),
                r@ == playables_upto(self.nodes@, root as int, j as int),
            decreases n - j,
        {
            if marks[j] && self.nodes[j].alive && self.nodes[j].playable {
                r.push(j);
            }
            j = j + 1;
        }
        r
    }

    /// For each node, whether it lies strictly below `root`.
    fn below_marks(&self, root: usize) -> (marks: Vec<bool>)
        ensures
            marks@.len() == self.nodes().len(),
            forall|j: int|
                0 <= j < marks@.len() ==> #[trigger] marks@[j] == is_descendant(
                    self.nodes(),
                    root as int,
                    j,
                ),
    {
        let n = self.nodes.len();
        let mut marks: Vec<bool> = Vec::new();
        let mut j: usize = 0;
        while j < n
            invariant
                n == self.nodes@.len(),
                j <= n,
                marks@.len() == j,
                forall|k: int|
                    0 <= k < j ==> #[trigger] marks@[k] == is_descendant(self.nodes@, root as int, k),
            decreases n - j,
        {
            let below = match self.nodes[j].parent {
                Some(p) => if p < j {
                    p == root || marks[p]
                } else {
                    false
                },
                None => false,
            };
            marks.push(below);
            j = j + 1;
        }
        marks
    }

    /// The live nodes strictly below `root`, each once, in creation order
    /// (parents before their children).
    pub fn descendants(&self, root: usize) -> (r: Vec<usize>)
        ensures
            r@ == subtree_upto(self.nodes(), root as int, self.nodes().len() as int),
    {
        let marks = self.below_marks(root);
        let n = self.nodes.len();
        let mut r: Vec<usize> = Vec::new();
        let mut j: usize = 0;
        while j < n
            invariant
                n == self.nodes@.len(),
                j <= n,
                marks@.len() == n,
                forall|k: int|
                    0 <= k < n ==> #[trigger] marks@[k] == is_descendant(self.nodes@, root as int, k),
                r@ == subtree_upto(self.nodes@, root as int, j as int),
            decreases n - j,
        {
            if marks[j] && self.nodes[j].alive {
                r.push(j);
            }
            j = j + 1;
        }
        r
    }
}

} // verus!
