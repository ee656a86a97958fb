use shinra::scene::{
    collect_mesh_paths, copy_scene, ensure_ground, ensure_mesh, erase_cell, erase_tile, mesh_index,
    paint_cell, paint_tile, push_undo_helper, undo, Cell, ComponentValue, MeshRef, Node, Scene,
    Tilemap, Transform, ONE_BITS, UNDO_DEPTH,
};

fn node(name: &str) -> Node {
    Node {
        name: name.to_string(),
        transform: Transform::identity(),
        mesh: None,
        tilemap: None,
        components: Vec::new(),
        children: Vec::new(),
    }
}

fn mesh_node(name: &str, path: &str) -> Node {
    let mut n = node(name);
    n.mesh = Some(MeshRef { path: path.to_string() });
    n
}

fn scene(nodes: Vec<Node>) -> Scene {
    Scene { name: "s".to_string(), nodes }
}

fn cells_of(sc: &Scene, idx: usize) -> Vec<(i32, i32, u32)> {
    sc.nodes[idx].tilemap.as_ref().unwrap().cells.iter().map(|c| (c.x, c.y, c.tile_id)).collect()
}

#[test]
fn identity_is_unit_scale_and_no_rotation() {
    let t = Transform::identity();
    assert_eq!(t.translation, [0, 0, 0]);
    assert_eq!(t.rotation, [0, 0, 0, ONE_BITS]);
    assert_eq!(t.scale, [ONE_BITS; 3]);
    assert_eq!(f32::from_bits(ONE_BITS), 1.0);
}

#[test]
fn ensure_ground_appends_once_and_then_finds_it() {
    let mut sc = scene(vec![node("a")]);
    let g = ensure_ground(&mut sc);
    assert_eq!(g, 1);
    assert_eq!(sc.nodes.len(), 2);
    assert_eq!(sc.nodes[1].name, "ground");
    let tm = sc.nodes[1].tilemap.as_ref().unwrap();
    assert_eq!(tm.tileset, "assets/tilesets/town.tres.ron");
    assert_eq!(tm.tile_size, [ONE_BITS, ONE_BITS]);
    assert!(tm.cells.is_empty());
    assert_eq!(ensure_ground(&mut sc), 1);
    assert_eq!(sc.nodes.len(), 2);
}

#[test]
fn ensure_ground_finds_the_first_tilemap() {
    let mut map = node("map");
    map.tilemap = Some(Tilemap { tileset: "t".to_string(), tile_size: [0, 0], cells: Vec::new() });
    let mut map2 = node("map2");
    map2.tilemap = Some(Tilemap { tileset: "u".to_string(), tile_size: [0, 0], cells: Vec::new() });
    let mut sc = scene(vec![node("a"), map, map2]);
    assert_eq!(ensure_ground(&mut sc), 1);
    assert_eq!(sc.nodes.len(), 3);
}

#[test]
fn paint_replaces_and_appends() {
    let mut cells = vec![Cell { x: 0, y: 0, tile_id: 1 }, Cell { x: 1, y: 0, tile_id: 2 }];
    paint_cell(&mut cells, 1, 0, 7);
    assert_eq!(cells, vec![Cell { x: 0, y: 0, tile_id: 1 }, Cell { x: 1, y: 0, tile_id: 7 }]);
    paint_cell(&mut cells, -3, 4, 5);
    assert_eq!(cells.len(), 3);
    assert_eq!(cells[2], Cell { x: -3, y: 4, tile_id: 5 });
}

#[test]
fn erase_removes_every_cell_at_the_spot() {
    let mut cells = vec![
        Cell { x: 0, y: 0, tile_id: 1 },
        Cell { x: 2, y: 2, tile_id: 2 },
        Cell { x: 0, y: 0, tile_id: 3 },
    ];
    erase_cell(&mut cells, 0, 0);
    assert_eq!(cells, vec![Cell { x: 2, y: 2, tile_id: 2 }]);
    erase_cell(&mut cells, 9, 9);
    assert_eq!(cells, vec![Cell { x: 2, y: 2, tile_id: 2 }]);
}

#[test]
fn paint_and_erase_tiles_on_the_ground() {
    let mut sc = scene(vec![node("a")]);
    let g = ensure_ground(&mut sc);
    paint_tile(&mut sc, g, 2, 3, 9);
    paint_tile(&mut sc, g, 2, 3, 4);
    paint_tile(&mut sc, g, 0, 0, 1);
    assert_eq!(cells_of(&sc, g), vec![(2, 3, 4), (0, 0, 1)]);
    erase_tile(&mut sc, g, 2, 3);
    assert_eq!(cells_of(&sc, g), vec![(0, 0, 1)]);
    assert_eq!(sc.nodes[0].name, "a");
    assert_eq!(sc.nodes[g].name, "ground");
}

#[test]
fn undo_restores_the_recorded_scene() {
    let mut sc = scene(vec![node("a")]);
    let mut stack = Vec::new();
    push_undo_helper(&mut stack, &sc);
    sc.nodes.push(node("b"));
    assert!(undo(&mut stack, &mut sc));
    assert_eq!(sc.nodes.len(), 1);
    assert_eq!(sc.nodes[0].name, "a");
    assert!(!undo(&mut stack, &mut sc));
    assert_eq!(sc.nodes.len(), 1);
}

#[test]
fn undo_history_keeps_the_last_hundred() {
    let mut stack = Vec::new();
    for i in 0..(UNDO_DEPTH + 5) {
        let sc = scene(vec![node(&format!("n{i}"))]);
        push_undo_helper(&mut stack, &sc);
    }
    assert_eq!(stack.len(), 100);
    assert_eq!(stack[0].nodes[0].name, "n5");
    assert_eq!(stack[99].nodes[0].name, "n104");
}

#[test]
fn copy_is_deep() {
    let mut parent = mesh_node("p", "m.obj");
    parent.children.push(mesh_node("c", "k.obj"));
    parent.components.push(ComponentValue::PlayerControlled);
    let sc = scene(vec![parent]);
    let c = copy_scene(&sc);
    assert_eq!(c.name, "s");
    assert_eq!(c.nodes[0].children[0].name, "c");
    assert_eq!(c.nodes[0].children[0].mesh.as_ref().unwrap().path, "k.obj");
    assert_eq!(c.nodes[0].components, vec![ComponentValue::PlayerControlled]);
}

#[test]
fn mesh_paths_are_distinct_in_walk_order() {
    let mut a = mesh_node("a", "x.obj");
    a.children.push(mesh_node("a1", "y.obj"));
    a.children.push(mesh_node("a2", "x.obj"));
    let b = mesh_node("b", "z.obj");
    let sc = scene(vec![a, node("empty"), b]);
    let paths = collect_mesh_paths(&sc);
    assert_eq!(paths, vec!["x.obj", "y.obj", "z.obj"]);
    assert_eq!(mesh_index(&paths, &"y.obj".to_string()), Some(1));
    assert_eq!(mesh_index(&paths, &"q.obj".to_string()), None);
    let mut paths = paths;
    assert_eq!(ensure_mesh(&mut paths, &"z.obj".to_string()), 2);
    assert_eq!(ensure_mesh(&mut paths, &"assets/quad.obj".to_string()), 3);
    assert_eq!(paths.len(), 4);
}

#[test]
fn defaults_are_empty() {
    let n = Node::default();
    assert_eq!(n.name, "");
    assert_eq!(n.transform.scale, [ONE_BITS; 3]);
    assert!(n.mesh.is_none() && n.tilemap.is_none() && n.children.is_empty() && n.components.is_empty());
    let sc = Scene::default();
    assert!(sc.name.is_empty() && sc.nodes.is_empty());
    let t = shinra::scene::Tileset::default();
    assert!(t.tiles.is_empty());
    assert_eq!(Transform::default().rotation, [0, 0, 0, ONE_BITS]);
}
