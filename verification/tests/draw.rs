use shinra::draw::draw_plan;
use shinra::scene::{Cell, MeshRef, Node, Scene, Tilemap, Transform};

fn node(name: &str, mesh: Option<&str>) -> Node {
    Node {
        name: name.to_string(),
        transform: Transform::identity(),
        mesh: mesh.map(|p| MeshRef { path: p.to_string() }),
        tilemap: None,
        components: Vec::new(),
        children: Vec::new(),
    }
}

#[test]
fn plan_walks_the_tree_and_adds_the_quad() {
    let mut root = node("root", Some("a.obj"));
    let mut child = node("child", Some("b.obj"));
    child.tilemap = Some(Tilemap {
        tileset: "t".to_string(),
        tile_size: [7, 8],
        cells: vec![Cell { x: 1, y: 2, tile_id: 3 }, Cell { x: -1, y: 0, tile_id: 4 }],
    });
    root.children.push(child);
    root.children.push(node("leaf", Some("a.obj")));
    let sc = Scene { name: "s".to_string(), nodes: vec![root, node("other", None)] };
    let plan = draw_plan(&sc);
    assert_eq!(plan.meshes, vec!["a.obj", "b.obj", "assets/quad.obj"]);
    let parents: Vec<Option<usize>> = plan.nodes.iter().map(|n| n.parent).collect();
    assert_eq!(parents, vec![None, Some(0), Some(0), None]);
    let draws: Vec<(usize, u32, Option<Cell>)> =
        plan.draws.iter().map(|d| (d.node, d.mesh_id, d.cell)).collect();
    assert_eq!(
        draws,
        vec![
            (0, 0, None),
            (1, 1, None),
            (1, 2, Some(Cell { x: 1, y: 2, tile_id: 3 })),
            (1, 2, Some(Cell { x: -1, y: 0, tile_id: 4 })),
            (2, 0, None),
        ]
    );
    assert_eq!(plan.draws[2].tile_size, [7, 8]);
    assert_eq!(plan.draws[0].tile_size, [0, 0]);
}

#[test]
fn a_scene_that_uses_the_quad_keeps_one_entry() {
    let sc = Scene { name: "s".to_string(), nodes: vec![node("q", Some("assets/quad.obj"))] };
    let plan = draw_plan(&sc);
    assert_eq!(plan.meshes, vec!["assets/quad.obj"]);
    assert_eq!(plan.draws.len(), 1);
    assert_eq!(plan.draws[0].mesh_id, 0);
}

#[test]
fn an_empty_scene_draws_nothing() {
    let plan = draw_plan(&Scene { name: String::new(), nodes: Vec::new() });
    assert_eq!(plan.meshes, vec!["assets/quad.obj"]);
    assert!(plan.nodes.is_empty());
    assert!(plan.draws.is_empty());
}
