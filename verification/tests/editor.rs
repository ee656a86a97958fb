use shinra::editor::{
    apply_brush, chars_of, drop_payload, erase_ground, file_name, is_obj_path, mesh_node_name,
    node_label, paint_ground, viewport_items, DragPayload, Stroke, ViewportItem, must_load, cache_step,
};
use shinra::scene::{Cell, MeshRef, Node, Scene, Tilemap, Transform, ONE_BITS};

fn node(name: &str) -> Node {
    Node {
        name: name.to_string(),
        transform: Transform::identity(),
        mesh: None,
        tilemap: None,
        components: Vec::new(),
        children: Vec::new(),
    }
}

fn ground_cells(sc: &Scene) -> Vec<(i32, i32, u32)> {
    let g = sc.nodes.iter().position(|n| n.tilemap.is_some()).unwrap();
    sc.nodes[g].tilemap.as_ref().unwrap().cells.iter().map(|c| (c.x, c.y, c.tile_id)).collect()
}

fn stroke(paint_start: bool, erase_start: bool, painting: bool, erasing: bool, cell: Option<(i32, i32)>) -> Stroke {
    Stroke { paint_start, erase_start, painting, erasing, cell }
}

#[test]
fn names_and_labels() {
    assert_eq!(chars_of("héllo"), vec!['h', 'é', 'l', 'l', 'o']);
    assert_eq!(file_name("assets/models/bunny.obj"), "bunny.obj");
    assert_eq!(file_name("teapot.obj"), "teapot.obj");
    assert_eq!(file_name("dir/"), "");
    assert_eq!(mesh_node_name("assets/bunny.obj", 3, -12), "bunny.obj (3,-12)");
    assert_eq!(mesh_node_name("q.obj", 0, i32::MIN), "q.obj (0,-2147483648)");
    assert_eq!(mesh_node_name("q.obj", i32::MAX, 10), "q.obj (2147483647,10)");
    let mut n = node("hero");
    assert_eq!(node_label(&n), "hero");
    n.mesh = Some(MeshRef { path: "a.obj".to_string() });
    assert_eq!(node_label(&n), "[mesh] hero");
    n.tilemap = Some(Tilemap { tileset: String::new(), tile_size: [0, 0], cells: Vec::new() });
    assert_eq!(node_label(&n), "[map] hero");
}

#[test]
fn only_obj_files_are_meshes() {
    assert!(is_obj_path("assets/bunny.obj"));
    assert!(is_obj_path(".obj"));
    assert!(!is_obj_path("assets/bunny.obj.bak"));
    assert!(!is_obj_path("obj"));
    assert!(!is_obj_path("scene.ron"));
}

#[test]
fn painting_makes_the_ground_once() {
    let mut sc = Scene { name: "s".to_string(), nodes: vec![node("a")] };
    paint_ground(&mut sc, 1, 2, 5);
    paint_ground(&mut sc, 1, 2, 6);
    paint_ground(&mut sc, 0, 0, 1);
    assert_eq!(sc.nodes.len(), 2);
    assert_eq!(sc.nodes[1].name, "ground");
    assert_eq!(sc.nodes[1].tilemap.as_ref().unwrap().tile_size, [ONE_BITS, ONE_BITS]);
    assert_eq!(ground_cells(&sc), vec![(1, 2, 6), (0, 0, 1)]);
    erase_ground(&mut sc, 1, 2);
    assert_eq!(ground_cells(&sc), vec![(0, 0, 1)]);
}

#[test]
fn a_brush_stroke_records_once_then_paints() {
    let mut sc = Scene { name: "s".to_string(), nodes: Vec::new() };
    let mut undo = Vec::new();
    apply_brush(&mut sc, &mut undo, Some(4), false, stroke(true, false, true, false, Some((2, 2))));
    assert_eq!(undo.len(), 1);
    assert!(undo[0].nodes.is_empty());
    apply_brush(&mut sc, &mut undo, Some(4), false, stroke(false, false, true, false, Some((3, 2))));
    assert_eq!(undo.len(), 1);
    assert_eq!(ground_cells(&sc), vec![(2, 2, 4), (3, 2, 4)]);
    apply_brush(&mut sc, &mut undo, Some(4), false, stroke(false, true, false, true, Some((2, 2))));
    assert_eq!(undo.len(), 2);
    assert_eq!(ground_cells(&sc), vec![(3, 2, 4)]);
}

#[test]
fn no_brush_or_a_drag_in_flight_does_nothing() {
    let mut sc = Scene { name: "s".to_string(), nodes: Vec::new() };
    let mut undo = Vec::new();
    apply_brush(&mut sc, &mut undo, None, false, stroke(true, true, true, true, Some((0, 0))));
    apply_brush(&mut sc, &mut undo, Some(1), true, stroke(true, true, true, true, Some((0, 0))));
    apply_brush(&mut sc, &mut undo, Some(1), false, stroke(false, false, true, false, None));
    assert!(undo.is_empty());
    assert!(sc.nodes.is_empty());
}

#[test]
fn dropping_a_mesh_adds_a_named_node() {
    let mut sc = Scene { name: "s".to_string(), nodes: vec![node("a")] };
    let mut undo = Vec::new();
    let t = [(-1.0f32).to_bits(), 0, 4.0f32.to_bits()];
    drop_payload(&mut sc, &mut undo, DragPayload::Mesh("assets/bunny.obj".to_string()), -1, 4, t);
    assert_eq!(undo.len(), 1);
    assert_eq!(sc.nodes.len(), 2);
    let n = &sc.nodes[1];
    assert_eq!(n.name, "bunny.obj (-1,4)");
    assert_eq!(n.transform.translation, t);
    assert_eq!(n.transform.rotation, [0, 0, 0, ONE_BITS]);
    assert_eq!(n.mesh.as_ref().unwrap().path, "assets/bunny.obj");
    drop_payload(&mut sc, &mut undo, DragPayload::Tile(8), 5, 5, [0, 0, 0]);
    assert_eq!(undo.len(), 2);
    assert_eq!(ground_cells(&sc), vec![(5, 5, 8)]);
}

#[test]
fn the_viewport_draws_tiles_then_meshes_of_top_level_nodes() {
    let mut a = node("a");
    a.tilemap = Some(Tilemap {
        tileset: String::new(),
        tile_size: [1, 2],
        cells: vec![Cell { x: 0, y: 1, tile_id: 0 }],
    });
    a.mesh = Some(MeshRef { path: "m.obj".to_string() });
    let mut b = node("b");
    b.children.push(Node { mesh: Some(MeshRef { path: "hidden.obj".to_string() }), ..node("c") });
    let c = Node { mesh: Some(MeshRef { path: "n.obj".to_string() }), ..node("d") };
    let sc = Scene { name: "s".to_string(), nodes: vec![a, b, c] };
    let show = |drawn: Vec<bool>| -> Vec<String> {
        viewport_items(&sc, &drawn)
            .iter()
        .map(|i| match i {
            ViewportItem::Tile { cell, tile_size } => format!("tile {} {} {:?}", cell.x, cell.y, tile_size),
            ViewportItem::Mesh { node } => format!("mesh {node}"),
        })
        .collect()
    };
    assert_eq!(show(vec![true, true, true]), vec!["tile 0 1 [1, 2]", "mesh 0", "mesh 2"]);
    assert_eq!(show(vec![false, true, true]), vec!["tile 0 1 [1, 2]", "mesh 2"]);
    assert_eq!(show(vec![true, true, false]), vec!["tile 0 1 [1, 2]", "mesh 0"]);
}

#[test]
fn meshes_are_loaded_once_and_failures_are_not_cached() {
    let mut cached: Vec<String> = Vec::new();
    let a = "a.obj".to_string();
    let b = "b.obj".to_string();
    assert!(must_load(&cached, &a));
    assert!(cache_step(&mut cached, &a, true));
    assert_eq!(cached, vec!["a.obj"]);
    assert!(!must_load(&cached, &a));
    assert!(cache_step(&mut cached, &a, false));
    assert_eq!(cached, vec!["a.obj"]);
    assert!(must_load(&cached, &b));
    assert!(!cache_step(&mut cached, &b, false));
    assert_eq!(cached, vec!["a.obj"]);
    assert!(must_load(&cached, &b));
    assert!(cache_step(&mut cached, &b, true));
    assert_eq!(cached, vec!["a.obj", "b.obj"]);
}
