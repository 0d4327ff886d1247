use scene_runtime::{Marker, Position, RuntimeLight, SceneGraph, LightColor};

const WHITE: LightColor = LightColor { red: 1_000_000, green: 1_000_000, blue: 1_000_000, alpha: 1_000_000 };

fn at(x: i64, y: i64, z: i64) -> Option<Position> {
    Some(Position { x, y, z })
}

fn lamp(intensity: u64) -> Option<Marker> {
    Some(Marker::Lamp { intensity, color: WHITE })
}

#[test]
fn lamp_under_placed_node_becomes_light() {
    let mut g = SceneGraph::new();
    let r = g.add_node(None, at(0, 0, 0), None, false);
    let p = g.add_node(Some(r), at(0, 10_000_000, 0), None, false);
    let m = g.add_node(Some(p), at(0, 0, 0), lamp(500), false);
    g.convert_lamps(r);
    assert_eq!(
        g.runtime_lights().clone(),
        vec![RuntimeLight {
            intensity: 500,
            color: WHITE,
            position: Position { x: 0, y: 10_000_000, z: 0 },
            shadows_enabled: true,
        }]
    );
    assert!(!g.node(m).alive);
    assert!(!g.descendants(r).contains(&m));
    assert!(g.node(p).alive);
}

#[test]
fn every_resolvable_lamp_converts() {
    let mut g = SceneGraph::new();
    let r = g.add_node(None, at(1, 2, 3), None, false);
    let mut holders = Vec::new();
    for i in 0..4i64 {
        let h = g.add_node(Some(r), at(i * 1_000, 0, -i), None, false);
        g.add_node(Some(h), None, lamp(100 + i as u64), false);
        holders.push(h);
    }
    g.convert_lamps(r);
    let lights = g.runtime_lights();
    assert_eq!(lights.len(), 4);
    for (i, l) in lights.iter().enumerate() {
        let i = i as i64;
        assert_eq!(l.position, Position { x: 1 + i * 1_000, y: 2, z: 3 - i });
        assert_eq!(l.intensity, 100 + i as u64);
    }
    let left = g.descendants(r);
    assert_eq!(left, holders);
    for d in left {
        assert!(!matches!(g.node(d).marker, Some(Marker::Lamp { .. })));
    }
}

#[test]
fn lamp_without_resolvable_parent_is_removed_without_light() {
    let mut g = SceneGraph::new();
    let r = g.add_node(None, at(0, 0, 0), None, false);
    let bare = g.add_node(Some(r), None, None, false);
    let m = g.add_node(Some(bare), at(0, 0, 0), lamp(700), false);
    g.convert_lamps(r);
    assert!(g.runtime_lights().is_empty());
    assert!(!g.node(m).alive);
    assert!(g.node(bare).alive);
}

#[test]
fn lamp_directly_under_root_uses_root_position() {
    let mut g = SceneGraph::new();
    let r = g.add_node(None, at(5, 6, 7), None, false);
    g.add_node(Some(r), None, lamp(10), false);
    g.convert_lamps(r);
    assert_eq!(g.runtime_lights()[0].position, Position { x: 5, y: 6, z: 7 });
}

#[test]
fn marker_subtree_goes_with_marker() {
    let mut g = SceneGraph::new();
    let r = g.add_node(None, at(0, 0, 0), None, false);
    let m = g.add_node(Some(r), at(0, 0, 0), lamp(1), false);
    let under = g.add_node(Some(m), at(0, 0, 0), None, false);
    let nested = g.add_node(Some(under), at(0, 0, 0), lamp(2), false);
    g.convert_lamps(r);
    assert!(!g.node(m).alive && !g.node(under).alive && !g.node(nested).alive);
    let lights = g.runtime_lights();
    assert_eq!(lights.len(), 2);
    assert_eq!((lights[0].intensity, lights[1].intensity), (1, 2));
    assert!(g.descendants(r).is_empty());
}

#[test]
fn conversion_only_touches_the_given_subtree() {
    let mut g = SceneGraph::new();
    let a = g.add_node(None, at(0, 0, 0), None, false);
    let b = g.add_node(None, at(0, 0, 0), None, false);
    let ma = g.add_node(Some(a), None, lamp(1), false);
    let mb = g.add_node(Some(b), None, lamp(2), false);
    g.convert_lamps(a);
    assert!(!g.node(ma).alive);
    assert!(g.node(mb).alive);
    assert_eq!(g.runtime_lights().len(), 1);
}

#[test]
fn other_markers_stay() {
    let mut g = SceneGraph::new();
    let r = g.add_node(None, at(0, 0, 0), None, false);
    let s = g.add_node(Some(r), None, Some(Marker::Spin { x: 0, y: 250, z: 0 }), false);
    let c = g.add_node(Some(r), None, Some(Marker::CameraAnchor), false);
    g.convert_lamps(r);
    assert!(g.runtime_lights().is_empty());
    assert_eq!(g.descendants(r), vec![s, c]);
}

#[test]
fn world_position_sums_ancestors() {
    let mut g = SceneGraph::new();
    let r = g.add_node(None, at(1, 1, 1), None, false);
    let a = g.add_node(Some(r), at(10, 0, -5), None, false);
    let b = g.add_node(Some(a), at(100, -3, 0), None, false);
    let c = g.add_node(Some(b), None, None, false);
    let d = g.add_node(Some(c), at(1, 1, 1), None, false);
    assert_eq!(g.world_position(b), Some(Position { x: 111, y: -2, z: -4 }));
    assert_eq!(g.world_position(c), None);
    assert_eq!(g.world_position(d), None);
    g.despawn_subtree(a);
    assert_eq!(g.world_position(b), None);
    assert_eq!(g.world_position(r), Some(Position { x: 1, y: 1, z: 1 }));
}

#[test]
fn descendants_preorder_of_creation() {
    let mut g = SceneGraph::new();
    let r = g.add_node(None, None, None, false);
    let other = g.add_node(None, None, None, false);
    let a = g.add_node(Some(r), None, None, false);
    let b = g.add_node(Some(a), None, None, false);
    let c = g.add_node(Some(r), None, None, false);
    g.add_node(Some(other), None, None, false);
    let e = g.add_node(Some(b), None, None, false);
    assert_eq!(g.descendants(r), vec![a, b, c, e]);
    assert_eq!(g.descendants(e), Vec::<usize>::new());
    g.despawn_subtree(b);
    assert_eq!(g.descendants(r), vec![a, c]);
    assert_eq!(g.node_count(), 7);
}

#[test]
fn bright_color_is_kept() {
    let glow = LightColor { red: 4_000_000, green: 0, blue: -10, alpha: 1_000_000 };
    let mut g = SceneGraph::new();
    let r = g.add_node(None, at(0, 0, 0), None, false);
    g.add_node(Some(r), None, Some(Marker::Lamp { intensity: 3, color: glow }), false);
    g.convert_lamps(r);
    assert_eq!(g.runtime_lights()[0].color, glow);
}
