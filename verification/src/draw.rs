//! Turning a scene document into what a game draws: the distinct meshes it
//! names (with the unit quad that tiles are drawn with), the nodes of its
//! tree in walk order with the parent each one hangs from, and one draw per
//! mesh node and per painted tile.
//!
//! The world transform of a node is its parent's world transform times its
//! own; parents come before their children in the walk, so the transforms can
//! be composed in one pass over the node list.
use crate::scene::{
    collect_mesh_paths, ensure_mesh, mesh_index, strs, Cell, Node, Scene, Transform,
};
use crate::text::{first_index, lemma_first_index};
use vstd::prelude::*;

verus! {

broadcast use vstd::string::group_string_axioms;

/// One node of the tree, in walk order.
#[derive(Clone, Copy, Debug)]
pub struct FlatNode {
    /// The position of the parent in the walk; `None` for a root.
    pub parent: Option<usize>,
    /// The node's own transform.
    pub transform: Transform,
}

/// One thing to draw.
#[derive(Clone, Copy, Debug)]
pub struct DrawItem {
    /// The position, in walk order, of the node it belongs to.
    pub node: usize,
    /// The position of its mesh in the mesh list.
    pub mesh_id: u32,
    /// For a tile, the cell, placed at `(x * tile_size[0], 0, y * tile_size[1])`
    /// in the node's frame.
    pub cell: Option<Cell>,
    /// The tile size of the tilemap a tile belongs to, as `f32` bits; zero for
    /// a mesh.
    pub tile_size: [u32; 2],
}

/// What a scene becomes.
pub struct DrawPlan {
    pub meshes: Vec<String>,
    pub nodes: Vec<FlatNode>,
    pub draws: Vec<DrawItem>,
}

pub open spec fn path_eq(p: Seq<char>) -> spec_fn(Seq<char>) -> bool {
    |q: Seq<char>| q == p
}

/// The first position of `p` in `paths`, or `paths.len()` when it is absent.
pub open spec fn path_position(paths: Seq<Seq<char>>, p: Seq<char>) -> nat {
    first_index(paths, path_eq(p))
}

/// The quad every tile is drawn with.
pub open spec fn quad_path() -> Seq<char> {
    seq!['a', 's', 's', 'e', 't', 's', '/', 'q', 'u', 'a', 'd', '.', 'o', 'b', 'j']
}

/// The draw of a node's own mesh at walk position `at`, when the mesh list
/// has its path.
pub open spec fn mesh_draw(n: Node, at: nat, paths: Seq<Seq<char>>) -> Seq<DrawItem> {
    match n.mesh {
        Some(m) => if path_position(paths, m.path@) < paths.len() {
            seq![
                DrawItem {
                    node: at as usize,
                    mesh_id: path_position(paths, m.path@) as u32,
                    cell: None,
                    tile_size: [0, 0],
                },
            ]
        } else {
            Seq::empty()
        },
        None => Seq::empty(),
    }
}

/// One quad per painted cell of a node's tilemap, in cell order.
pub open spec fn cell_draws(n: Node, at: nat, quad: u32) -> Seq<DrawItem> {
    match n.tilemap {
        Some(t) => Seq::new(
            t.cells@.len(),
            |k: int|
                DrawItem {
                    node: at as usize,
                    mesh_id: quad,
                    cell: Some(t.cells@[k]),
                    tile_size: t.tile_size,
                },
        ),
        None => Seq::empty(),
    }
}

/// The draws of one node at walk position `at`: its mesh, then its tiles.
pub open spec fn own_draws(n: Node, at: nat, paths: Seq<Seq<char>>, quad: u32) -> Seq<DrawItem> {
    mesh_draw(n, at, paths) + cell_draws(n, at, quad)
}

/// The walk of one node placed at position `at`: the node, then its
/// children's subtrees in order.
pub open spec fn walk_node(
    n: Node,
    parent: Option<usize>,
    at: nat,
    paths: Seq<Seq<char>>,
    quad: u32,
) -> (Seq<FlatNode>, Seq<DrawItem>)
    decreases n,
{
    let rest = walk_nodes(n.children@, Some(at as usize), at + 1, paths, quad);
    (
        seq![FlatNode { parent, transform: n.transform }] + rest.0,
        own_draws(n, at, paths, quad) + rest.1,
    )
}

/// The walk of sibling nodes, the first placed at position `at`.
pub open spec fn walk_nodes(
    ns: Seq<Node>,
    parent: Option<usize>,
    at: nat,
    paths: Seq<Seq<char>>,
    quad: u32,
) -> (Seq<FlatNode>, Seq<DrawItem>)
    decreases ns,
{
    if ns.len() == 0 {
        (Seq::empty(), Seq::empty())
    } else {
        let first = walk_node(ns[0], parent, at, paths, quad);
        let rest = walk_nodes(ns.drop_first(), parent, at + first.0.len(), paths, quad);
        (first.0 + rest.0, first.1 + rest.1)
    }
}

proof fn lemma_walk_nodes_push(
    ns: Seq<Node>,
    n: Node,
    parent: Option<usize>,
    at: nat,
    paths: Seq<Seq<char>>,
    quad: u32,
)
    ensures
        ({
            let before = walk_nodes(ns, parent, at, paths, quad);
            let last = walk_node(n, parent, at + before.0.len(), paths, quad);
            walk_nodes(ns.push(n), parent, at, paths, quad) == (before.0 + last.0, before.1
                + last.1)
        }),
    decreases ns.len(),
{
    let e = Seq::<Node>::empty();
    if ns.len() == 0 {
        assert(ns.push(n).drop_first() =~= e);
        assert(ns.push(n)[0] == n);
        let last = walk_node(n, parent, at, paths, quad);
        assert(walk_nodes(e, parent, at + last.0.len(), paths, quad) == (
            Seq::<FlatNode>::empty(),
            Seq::<DrawItem>::empty(),
        ));
        assert(last.0 + Seq::<FlatNode>::empty() =~= last.0);
        assert(last.1 + Seq::<DrawItem>::empty() =~= last.1);
        assert(Seq::<FlatNode>::empty() + last.0 =~= last.0);
        assert(Seq::<DrawItem>::empty() + last.1 =~= last.1);
    } else {
        let first = walk_node(ns[0], parent, at, paths, quad);
        assert(ns.push(n).drop_first() =~= ns.drop_first().push(n));
        assert(ns.push(n)[0] == ns[0]);
        lemma_walk_nodes_push(ns.drop_first(), n, parent, at + first.0.len(), paths, quad);
        let tail = walk_nodes(ns.drop_first(), parent, at + first.0.len(), paths, quad);
        let last = walk_node(n, parent, at + first.0.len() + tail.0.len(), paths, quad);
        assert(first.0 + (tail.0 + last.0) =~= (first.0 + tail.0) + last.0);
        assert(first.1 + (tail.1 + last.1) =~= (first.1 + tail.1) + last.1);
    }
}

/// Append the draws of one node at walk position `at`.
fn push_own_draws(
    n: &Node,
    at: usize,
    paths: &Vec<String>,
    quad: u32,
    draws: &mut Vec<DrawItem>,
)
    ensures
        final(draws)@ == old(draws)@ + own_draws(*n, at as nat, strs(paths@), quad),
{
    let ghost ps = strs(paths@);
    let ghost d0 = draws@;
    let ghost mesh_part = mesh_draw(*n, at as nat, ps);
    match &n.mesh {
        Some(m) => {
            match mesh_index(paths, &m.path) {
                Some(i) => {
                    proof {
                        assert forall|k: int| 0 <= k < i implies !path_eq(m.path@)(
                            #[trigger] ps[k],
                        ) by {}
                        lemma_first_index(ps, path_eq(m.path@), i as int);
                    }
                    let id: u32 = #[verifier::truncate] (i as u32);
                    draws.push(DrawItem { node: at, mesh_id: id, cell: None, tile_size: [0, 0] });
                },
                None => {
                    proof {
                        assert forall|k: int| 0 <= k < ps.len() implies !path_eq(m.path@)(
                            #[trigger] ps[k],
                        ) by {}
                        lemma_first_index(ps, path_eq(m.path@), ps.len() as int);
                    }
                },
            }
        },
        None => {},
    }
    assert(draws@ =~= d0 + mesh_part);
    match &n.tilemap {
        Some(t) => {
            let ghost cells_part = cell_draws(*n, at as nat, quad);
            let mut k: usize = 0;
            while k < t.cells.len()
                invariant
                    k <= t.cells@.len(),
                    draws@ == d0 + mesh_part + cells_part.take(k as int),
                    cells_part.len() == t.cells@.len(),
                    forall|j: int|
                        0 <= j < t.cells@.len() ==> #[trigger] cells_part[j] == (DrawItem {
                            node: at,
                            mesh_id: quad,
                            cell: Some(t.cells@[j]),
                            tile_size: t.tile_size,
                        }),
                decreases t.cells@.len() - k,
            {
                draws.push(
                    DrawItem { node: at, mesh_id: quad, cell: Some(t.cells[k]), tile_size: t.tile_size },
                );
                assert(cells_part.take(k + 1) =~= cells_part.take(k as int).push(cells_part[k as int]));
                k = k + 1;
            }
            assert(cells_part.take(k as int) =~= cells_part);
            assert(draws@ =~= d0 + (mesh_part + cells_part));
        },
        None => {
            assert(mesh_part + Seq::<DrawItem>::empty() =~= mesh_part);
        },
    }
}

/// Append the walk of `n`, placed at position `flat.len()`.
fn walk_node_exec(
    n: &Node,
    parent: Option<usize>,
    paths: &Vec<String>,
    quad: u32,
    flat: &mut Vec<FlatNode>,
    draws: &mut Vec<DrawItem>,
)
    ensures
        final(flat)@ == old(flat)@ + walk_node(*n, parent, old(flat)@.len(), strs(paths@), quad).0,
        final(draws)@ == old(draws)@ + walk_node(*n, parent, old(flat)@.len(), strs(paths@), quad).1,
    decreases n,
{
    let at = flat.len();
    flat.push(FlatNode { parent, transform: n.transform });
    push_own_draws(n, at, paths, quad, draws);
    let ghost f1 = flat@;
    let ghost d1 = draws@;
    proof {
        assert(decreases_to!(n => n.children));
    }
    walk_nodes_exec(&n.children, Some(at), paths, quad, flat, draws);
    proof {
        let rest = walk_nodes(n.children@, Some(at), (at + 1) as nat, strs(paths@), quad);
        assert(flat@ =~= old(flat)@ + (seq![FlatNode { parent, transform: n.transform }] + rest.0));
        assert(draws@ =~= old(draws)@ + (own_draws(*n, at as nat, strs(paths@), quad) + rest.1));
    }
}

/// Append the walk of the siblings `ns`, the first placed at `flat.len()`.
fn walk_nodes_exec(
    ns: &Vec<Node>,
    parent: Option<usize>,
    paths: &Vec<String>,
    quad: u32,
    flat: &mut Vec<FlatNode>,
    draws: &mut Vec<DrawItem>,
)
    ensures
        final(flat)@ == old(flat)@ + walk_nodes(ns@, parent, old(flat)@.len(), strs(paths@), quad).0,
        final(draws)@ == old(draws)@ + walk_nodes(ns@, parent, old(flat)@.len(), strs(paths@), quad).1,
    decreases ns,
{
    let ghost ps = strs(paths@);
    let ghost at0 = flat@.len();
    let ghost f0 = flat@;
    let ghost d0 = draws@;
    let mut i: usize = 0;
    assert(ns@.subrange(0, 0) =~= Seq::<Node>::empty());
    assert(f0 + Seq::<FlatNode>::empty() =~= f0);
    assert(d0 + Seq::<DrawItem>::empty() =~= d0);
    while i < ns.len()
        invariant
            i <= ns@.len(),
            ps == strs(paths@),
            flat@ == f0 + walk_nodes(ns@.subrange(0, i as int), parent, at0, ps, quad).0,
            draws@ == d0 + walk_nodes(ns@.subrange(0, i as int), parent, at0, ps, quad).1,
            flat@.len() == at0 + walk_nodes(ns@.subrange(0, i as int), parent, at0, ps, quad).0.len(),
        decreases ns@.len() - i,
    {
        let ghost before = walk_nodes(ns@.subrange(0, i as int), parent, at0, ps, quad);
        proof {
            assert(decreases_to!(ns => ns@[i as int]));
        }
        walk_node_exec(&ns[i], parent, paths, quad, flat, draws);
        proof {
            lemma_walk_nodes_push(ns@.subrange(0, i as int), ns@[i as int], parent, at0, ps, quad);
            assert(ns@.subrange(0, i + 1) =~= ns@.subrange(0, i as int).push(ns@[i as int]));
            let last = walk_node(ns@[i as int], parent, at0 + before.0.len(), ps, quad);
            assert(flat@ =~= f0 + (before.0 + last.0));
            assert(draws@ =~= d0 + (before.1 + last.1));
        }
        i = i + 1;
    }
    assert(ns@.subrange(0, ns@.len() as int) =~= ns@);
}

/// The mesh list of a scene: its distinct mesh paths in walk order, then the
/// quad, unless a node already uses it.
pub open spec fn scene_meshes(sc: Scene) -> Seq<Seq<char>> {
    crate::scene::add_path(
        crate::scene::add_paths(Seq::empty(), crate::scene::nodes_mesh_paths(sc.nodes@)),
        quad_path(),
    )
}

/// Everything a game draws of a scene.
pub fn draw_plan(sc: &Scene) -> (r: DrawPlan)
    ensures
        strs(r.meshes@) == scene_meshes(*sc),
        ({
            let w = walk_nodes(
                sc.nodes@,
                None,
                0,
                scene_meshes(*sc),
                path_position(scene_meshes(*sc), quad_path()) as u32,
            );
            r.nodes@ == w.0 && r.draws@ == w.1
        }),
{
    let mut meshes = collect_mesh_paths(sc);
    let quad_name = "assets/quad.obj".to_string();
    proof {
        reveal_strlit("assets/quad.obj");
        assert(quad_name@ =~= quad_path());
    }
    let quad = ensure_mesh(&mut meshes, &quad_name);
    proof {
        let ps = strs(meshes@);
        assert forall|k: int| 0 <= k < quad implies !path_eq(quad_path())(#[trigger] ps[k]) by {
            assert(meshes@[k]@ != quad_name@);
        }
        lemma_first_index(ps, path_eq(quad_path()), quad as int);
    }
    let mut nodes: Vec<FlatNode> = Vec::new();
    let mut draws: Vec<DrawItem> = Vec::new();
    let q: u32 = #[verifier::truncate] (quad as u32);
    walk_nodes_exec(&sc.nodes, None, &meshes, q, &mut nodes, &mut draws);
    DrawPlan { meshes, nodes, draws }
}

proof fn lemma_add_paths_len(acc: Seq<Seq<char>>, ps: Seq<Seq<char>>)
    ensures
        crate::scene::add_paths(acc, ps).len() <= acc.len() + ps.len(),
    decreases ps.len(),
{
    if ps.len() > 0 {
        lemma_add_paths_len(crate::scene::add_path(acc, ps[0]), ps.drop_first());
    }
}

/// Whether a node's parent, if it has one, comes before position `i`.
pub open spec fn parent_before(f: FlatNode, i: int) -> bool {
    match f.parent {
        Some(p) => p < i,
        None => true,
    }
}

/// A walk placed at position `at` is consistent: every parent comes before
/// its child, and every draw names a node of the walk and a mesh of the list.
pub open spec fn walk_ok(w: (Seq<FlatNode>, Seq<DrawItem>), at: nat, meshes: nat) -> bool {
    &&& forall|k: int|
        0 <= k < w.0.len() ==> parent_before(#[trigger] w.0[k], at + k)
    &&& forall|j: int|
        0 <= j < w.1.len() ==> at <= (#[trigger] w.1[j]).node < at + w.0.len() && w.1[j].mesh_id
            < meshes
}

proof fn lemma_walk_node_ok(
    n: Node,
    parent: Option<usize>,
    at: nat,
    paths: Seq<Seq<char>>,
    quad: u32,
)
    requires
        parent matches Some(p) ==> p < at,
        quad < paths.len() <= u32::MAX,
        at + walk_node(n, parent, at, paths, quad).0.len() <= usize::MAX,
    ensures
        walk_ok(walk_node(n, parent, at, paths, quad), at, paths.len()),
        walk_node(n, parent, at, paths, quad).0.len() >= 1,
    decreases n,
{
    let rest = walk_nodes(n.children@, Some(at as usize), at + 1, paths, quad);
    let w = walk_node(n, parent, at, paths, quad);
    let own = own_draws(n, at, paths, quad);
    assert(w.0 == seq![FlatNode { parent, transform: n.transform }] + rest.0);
    assert(w.1 == own + rest.1);
    lemma_walk_nodes_ok(n.children@, Some(at as usize), (at + 1) as nat, paths, quad);
    assert forall|k: int| 0 <= k < w.0.len() implies parent_before(#[trigger] w.0[k], at + k) by {
        if k > 0 {
            assert(w.0[k] == rest.0[k - 1]);
        }
    }
    assert forall|j: int| 0 <= j < w.1.len() implies at <= (#[trigger] w.1[j]).node < at
        + w.0.len() && w.1[j].mesh_id < paths.len() by {
        if j < own.len() {
            let md = mesh_draw(n, at, paths);
            if j < md.len() {
                assert(w.1[j] == md[j]);
            } else {
                assert(w.1[j] == cell_draws(n, at, quad)[j - md.len()]);
            }
        } else {
            assert(w.1[j] == rest.1[j - own.len()]);
        }
    }
}

proof fn lemma_walk_nodes_ok(
    ns: Seq<Node>,
    parent: Option<usize>,
    at: nat,
    paths: Seq<Seq<char>>,
    quad: u32,
)
    requires
        parent matches Some(p) ==> p < at,
        quad < paths.len() <= u32::MAX,
        at + walk_nodes(ns, parent, at, paths, quad).0.len() <= usize::MAX,
    ensures
        walk_ok(walk_nodes(ns, parent, at, paths, quad), at, paths.len()),
    decreases ns,
{
    if ns.len() > 0 {
        let first = walk_node(ns[0], parent, at, paths, quad);
        let rest = walk_nodes(ns.drop_first(), parent, at + first.0.len(), paths, quad);
        let w = walk_nodes(ns, parent, at, paths, quad);
        assert(w == (first.0 + rest.0, first.1 + rest.1));
        lemma_walk_node_ok(ns[0], parent, at, paths, quad);
        lemma_walk_nodes_ok(ns.drop_first(), parent, at + first.0.len(), paths, quad);
        assert forall|k: int| 0 <= k < w.0.len() implies parent_before(#[trigger] w.0[k], at + k) by {
            if k >= first.0.len() {
                assert(w.0[k] == rest.0[k - first.0.len()]);
            } else {
                assert(w.0[k] == first.0[k]);
            }
        }
        assert forall|j: int| 0 <= j < w.1.len() implies at <= (#[trigger] w.1[j]).node < at
            + w.0.len() && w.1[j].mesh_id < paths.len() by {
            if j >= first.1.len() {
                assert(w.1[j] == rest.1[j - first.1.len()]);
            } else {
                assert(w.1[j] == first.1[j]);
            }
        }
    }
}

/// The plan of a scene can be followed without a lookup going astray: each
/// node's parent comes before it, so world transforms compose in one pass,
/// and every draw names a node of the plan and a mesh of its mesh list.
pub proof fn law_plan_is_consistent(sc: Scene)
    requires
        crate::scene::nodes_mesh_paths(sc.nodes@).len() < u32::MAX,
        walk_nodes(
            sc.nodes@,
            None,
            0,
            scene_meshes(sc),
            path_position(scene_meshes(sc), quad_path()) as u32,
        ).0.len() <= usize::MAX,
    ensures
        walk_ok(
            walk_nodes(
                sc.nodes@,
                None,
                0,
                scene_meshes(sc),
                path_position(scene_meshes(sc), quad_path()) as u32,
            ),
            0,
            scene_meshes(sc).len(),
        ),
{
    let ms = scene_meshes(sc);
    let acc = crate::scene::add_paths(Seq::empty(), crate::scene::nodes_mesh_paths(sc.nodes@));
    lemma_add_paths_len(Seq::empty(), crate::scene::nodes_mesh_paths(sc.nodes@));
    assert(ms.contains(quad_path())) by {
        if !acc.contains(quad_path()) {
            assert(ms[acc.len() as int] == quad_path());
        }
    }
    let q = choose|q: int| 0 <= q < ms.len() && ms[q] == quad_path();
    crate::text::lemma_first_index_bounds(ms, path_eq(quad_path()));
    if path_position(ms, quad_path()) >= ms.len() {
        assert(!path_eq(quad_path())(ms[q]));
    }
    lemma_walk_nodes_ok(sc.nodes@, None, 0, ms, path_position(ms, quad_path()) as u32);
}

/// The nodes of a tree in walk order: the node, then its children's trees.
pub open spec fn preorder_node(n: Node) -> Seq<Node>
    decreases n,
{
    seq![n] + preorder_nodes(n.children@)
}

/// The nodes of sibling trees in walk order.
pub open spec fn preorder_nodes(ns: Seq<Node>) -> Seq<Node>
    decreases ns,
{
    if ns.len() == 0 {
        Seq::empty()
    } else {
        preorder_node(ns[0]) + preorder_nodes(ns.drop_first())
    }
}

/// The draw of node `n`'s own mesh, placed at walk position `at`.
pub open spec fn own_mesh_item(n: Node, at: int, paths: Seq<Seq<char>>) -> DrawItem {
    DrawItem {
        node: at as usize,
        mesh_id: path_position(paths, n.mesh->0.path@) as u32,
        cell: None,
        tile_size: [0, 0],
    }
}

/// Node `n` at walk position `at` has its mesh among `draws`, when it has a
/// mesh that the mesh list names.
pub open spec fn mesh_drawn(draws: Seq<DrawItem>, at: int, n: Node, paths: Seq<Seq<char>>) -> bool {
    (n.mesh is Some && path_position(paths, n.mesh->0.path@) < paths.len()) ==> exists|j: int|
        0 <= j < draws.len() && draws[j] == own_mesh_item(n, at, paths)
}

/// Node `n`'s mesh path, if any, is in `list`.
pub open spec fn mesh_listed(n: Node, list: Seq<Seq<char>>) -> bool {
    n.mesh is Some ==> list.contains(n.mesh->0.path@)
}

proof fn lemma_walk_node_complete(
    n: Node,
    parent: Option<usize>,
    at: nat,
    paths: Seq<Seq<char>>,
    quad: u32,
)
    ensures
        walk_node(n, parent, at, paths, quad).0.len() == preorder_node(n).len(),
        forall|k: int|
            0 <= k < preorder_node(n).len() ==> mesh_drawn(
                walk_node(n, parent, at, paths, quad).1,
                at + k,
                #[trigger] preorder_node(n)[k],
                paths,
            ) && mesh_listed(preorder_node(n)[k], crate::scene::node_mesh_paths(n)),
    decreases n,
{
    let w = walk_node(n, parent, at, paths, quad);
    let rest = walk_nodes(n.children@, Some(at as usize), at + 1, paths, quad);
    let pre = preorder_node(n);
    let kids = preorder_nodes(n.children@);
    let own = own_draws(n, at, paths, quad);
    let listed = crate::scene::node_mesh_paths(n);
    let kid_paths = crate::scene::nodes_mesh_paths(n.children@);
    assert(listed == crate::scene::mesh_of(n) + kid_paths);
    lemma_walk_nodes_complete(n.children@, Some(at as usize), (at + 1) as nat, paths, quad);
    assert forall|k: int| 0 <= k < pre.len() implies mesh_drawn(w.1, at + k, #[trigger] pre[k], paths)
        && mesh_listed(pre[k], listed) by {
        if k == 0 {
            assert(pre[0] == n);
            if n.mesh is Some && path_position(paths, n.mesh->0.path@) < paths.len() {
                assert(w.1[0] == own[0]);
                assert(own[0] == own_mesh_item(n, at as int, paths));
            }
            if n.mesh is Some {
                assert(listed[0] == n.mesh->0.path@);
            }
        } else {
            assert(pre[k] == kids[k - 1]);
            assert(mesh_drawn(rest.1, at + 1 + (k - 1), kids[k - 1], paths));
            assert(mesh_listed(kids[k - 1], kid_paths));
            if pre[k].mesh is Some && path_position(paths, pre[k].mesh->0.path@) < paths.len() {
                let j = choose|j: int|
                    0 <= j < rest.1.len() && rest.1[j] == own_mesh_item(pre[k], at + k, paths);
                assert(w.1[j + own.len()] == rest.1[j]);
            }
            if pre[k].mesh is Some {
                let i = choose|i: int|
                    0 <= i < kid_paths.len() && kid_paths[i] == pre[k].mesh->0.path@;
                assert(listed[i + crate::scene::mesh_of(n).len()] == kid_paths[i]);
            }
        }
    }
}

proof fn lemma_walk_nodes_complete(
    ns: Seq<Node>,
    parent: Option<usize>,
    at: nat,
    paths: Seq<Seq<char>>,
    quad: u32,
)
    ensures
        walk_nodes(ns, parent, at, paths, quad).0.len() == preorder_nodes(ns).len(),
        forall|k: int|
            0 <= k < preorder_nodes(ns).len() ==> mesh_drawn(
                walk_nodes(ns, parent, at, paths, quad).1,
                at + k,
                #[trigger] preorder_nodes(ns)[k],
                paths,
            ) && mesh_listed(preorder_nodes(ns)[k], crate::scene::nodes_mesh_paths(ns)),
    decreases ns,
{
    if ns.len() > 0 {
        let first = walk_node(ns[0], parent, at, paths, quad);
        let rest = walk_nodes(ns.drop_first(), parent, at + first.0.len(), paths, quad);
        let w = walk_nodes(ns, parent, at, paths, quad);
        let p0 = preorder_node(ns[0]);
        let pr = preorder_nodes(ns.drop_first());
        let pre = preorder_nodes(ns);
        let l0 = crate::scene::node_mesh_paths(ns[0]);
        let lr = crate::scene::nodes_mesh_paths(ns.drop_first());
        let listed = crate::scene::nodes_mesh_paths(ns);
        assert(w == (first.0 + rest.0, first.1 + rest.1));
        assert(pre == p0 + pr);
        assert(listed == l0 + lr);
        lemma_walk_node_complete(ns[0], parent, at, paths, quad);
        lemma_walk_nodes_complete(ns.drop_first(), parent, at + first.0.len(), paths, quad);
        assert forall|k: int| 0 <= k < pre.len() implies mesh_drawn(
            w.1,
            at + k,
            #[trigger] pre[k],
            paths,
        ) && mesh_listed(pre[k], listed) by {
            if k < p0.len() {
                assert(pre[k] == p0[k]);
                assert(mesh_drawn(first.1, at + k, p0[k], paths));
                assert(mesh_listed(p0[k], l0));
                if pre[k].mesh is Some && path_position(paths, pre[k].mesh->0.path@) < paths.len() {
                    let j = choose|j: int|
                        0 <= j < first.1.len() && first.1[j] == own_mesh_item(pre[k], at + k, paths);
                    assert(w.1[j] == first.1[j]);
                }
                if pre[k].mesh is Some {
                    let i = choose|i: int| 0 <= i < l0.len() && l0[i] == pre[k].mesh->0.path@;
                    assert(listed[i] == l0[i]);
                }
            } else {
                let k2 = k - p0.len();
                assert(pre[k] == pr[k2]);
                assert(mesh_drawn(rest.1, at + first.0.len() + k2, pr[k2], paths));
                assert(mesh_listed(pr[k2], lr));
                if pre[k].mesh is Some && path_position(paths, pre[k].mesh->0.path@) < paths.len() {
                    let j = choose|j: int|
                        0 <= j < rest.1.len() && rest.1[j] == own_mesh_item(pre[k], at + k, paths);
                    assert(w.1[j + first.1.len()] == rest.1[j]);
                }
                if pre[k].mesh is Some {
                    let i = choose|i: int| 0 <= i < lr.len() && lr[i] == pre[k].mesh->0.path@;
                    assert(listed[i + l0.len()] == lr[i]);
                }
            }
        }
    }
}

/// Every node of the scene that has a mesh, at any depth, is drawn with that
/// mesh: the plan lists its path, and a draw of the node names it.
pub proof fn law_every_mesh_is_drawn(sc: Scene)
    ensures
        ({
            let ms = scene_meshes(sc);
            let w = walk_nodes(
                sc.nodes@,
                None,
                0,
                ms,
                path_position(ms, quad_path()) as u32,
            );
            let pre = preorder_nodes(sc.nodes@);
            &&& w.0.len() == pre.len()
            &&& forall|k: int|
                0 <= k < pre.len() && (#[trigger] pre[k]).mesh is Some ==> {
                    &&& path_position(ms, pre[k].mesh->0.path@) < ms.len()
                    &&& ms[path_position(ms, pre[k].mesh->0.path@) as int] == pre[k].mesh->0.path@
                    &&& exists|j: int|
                        0 <= j < w.1.len() && w.1[j] == own_mesh_item(pre[k], k, ms)
                }
        }),
{
    let ms = scene_meshes(sc);
    let listed = crate::scene::nodes_mesh_paths(sc.nodes@);
    let acc = crate::scene::add_paths(Seq::empty(), listed);
    let q = path_position(ms, quad_path()) as u32;
    let w = walk_nodes(sc.nodes@, None, 0, ms, q);
    let pre = preorder_nodes(sc.nodes@);
    lemma_walk_nodes_complete(sc.nodes@, None, 0, ms, q);
    crate::scene::law_mesh_paths_distinct_and_complete(sc.nodes@);
    assert forall|k: int| 0 <= k < pre.len() && (#[trigger] pre[k]).mesh is Some implies {
        &&& path_position(ms, pre[k].mesh->0.path@) < ms.len()
        &&& ms[path_position(ms, pre[k].mesh->0.path@) as int] == pre[k].mesh->0.path@
        &&& exists|j: int| 0 <= j < w.1.len() && w.1[j] == own_mesh_item(pre[k], k, ms)
    } by {
        let p = pre[k].mesh->0.path@;
        assert(mesh_listed(pre[k], listed));
        assert(acc.contains(p));
        let i = choose|i: int| 0 <= i < acc.len() && acc[i] == p;
        assert(ms[i] == acc[i]);
        crate::text::lemma_first_index_bounds(ms, path_eq(p));
        if path_position(ms, p) >= ms.len() {
            assert(!path_eq(p)(ms[i]));
        }
        assert(mesh_drawn(w.1, 0 + k, pre[k], ms));
        assert(0 + k == k);
    }
}

/// Where child `i` of node `n` stands in `n`'s walk: after `n` itself and
/// the whole trees of the children before it.
pub open spec fn child_position(n: Node, i: int) -> int {
    1 + preorder_nodes(n.children@.take(i)).len() as int
}

/// Child `i` of the node at `k` of a walk placed at `at` over the nodes
/// `pre` stands at `k + child_position` and hangs from position `at + k`.
pub open spec fn child_hangs(pre: Seq<Node>, flat: Seq<FlatNode>, at: nat, k: int, i: int) -> bool {
    &&& k + child_position(pre[k], i) < pre.len()
    &&& pre[k + child_position(pre[k], i)] == pre[k].children@[i]
    &&& flat[k + child_position(pre[k], i)].parent == Some((at + k) as usize)
}

/// In a walk placed at `at` over the nodes `pre`, every child hangs from its
/// own parent.
pub open spec fn children_hang_from_parent(pre: Seq<Node>, flat: Seq<FlatNode>, at: nat) -> bool {
    forall|k: int, i: int|
        0 <= k < pre.len() && 0 <= i < pre[k].children@.len() ==> #[trigger] child_hangs(
            pre,
            flat,
            at,
            k,
            i,
        )
}

/// Root `r` of the siblings `ns` stands after the whole trees of the roots
/// before it, and hangs from `parent`.
pub open spec fn root_hangs(ns: Seq<Node>, flat: Seq<FlatNode>, parent: Option<usize>, r: int) -> bool {
    &&& preorder_nodes(ns.take(r)).len() < preorder_nodes(ns).len()
    &&& preorder_nodes(ns)[preorder_nodes(ns.take(r)).len() as int] == ns[r]
    &&& flat[preorder_nodes(ns.take(r)).len() as int].parent == parent
}

proof fn lemma_preorder_take(ns: Seq<Node>, r: int)
    requires
        1 <= r <= ns.len(),
    ensures
        preorder_nodes(ns.take(r)) == preorder_node(ns[0]) + preorder_nodes(ns.drop_first().take(r - 1)),
{
    let t = ns.take(r);
    assert(t[0] == ns[0]);
    assert(t.drop_first() =~= ns.drop_first().take(r - 1));
}

proof fn lemma_walk_node_parents(
    n: Node,
    parent: Option<usize>,
    at: nat,
    paths: Seq<Seq<char>>,
    quad: u32,
)
    ensures
        walk_node(n, parent, at, paths, quad).0.len() == preorder_node(n).len(),
        walk_node(n, parent, at, paths, quad).0[0].parent == parent,
        children_hang_from_parent(preorder_node(n), walk_node(n, parent, at, paths, quad).0, at),
    decreases n,
{
    let w = walk_node(n, parent, at, paths, quad);
    let kids = n.children@;
    let rest = walk_nodes(kids, Some(at as usize), at + 1, paths, quad);
    let pre = preorder_node(n);
    let kpre = preorder_nodes(kids);
    assert(pre == seq![n] + kpre);
    assert(w.0 == seq![FlatNode { parent, transform: n.transform }] + rest.0);
    lemma_walk_nodes_parents(kids, Some(at as usize), (at + 1) as nat, paths, quad);
    assert forall|k: int, i: int|
        0 <= k < pre.len() && 0 <= i < pre[k].children@.len() implies #[trigger] child_hangs(pre, w.0, at, k, i) by {
        if k == 0 {
            assert(pre[0] == n);
            let q = preorder_nodes(kids.take(i)).len() as int;
            assert(root_hangs(kids, rest.0, Some(at as usize), i));
            assert(kpre[q] == kids[i]);
            assert(pre[1 + q] == kpre[q]);
            assert(w.0[1 + q] == rest.0[q]);
        } else {
            let k1 = k - 1;
            assert(pre[k] == kpre[k1]);
            assert(children_hang_from_parent(kpre, rest.0, (at + 1) as nat));
            assert(kpre[k1].children@[i] == pre[k].children@[i]);
            assert(child_hangs(kpre, rest.0, (at + 1) as nat, k1, i));
            let p1 = k1 + child_position(kpre[k1], i);
            assert(kpre[p1] == kpre[k1].children@[i]);
            assert(pre[p1 + 1] == kpre[p1]);
            assert(w.0[p1 + 1] == rest.0[p1]);
        }
    }
    assert(children_hang_from_parent(pre, w.0, at));
    assert(w.0[0].parent == parent);
    assert(w.0.len() == pre.len());
}

proof fn lemma_walk_nodes_parents(
    ns: Seq<Node>,
    parent: Option<usize>,
    at: nat,
    paths: Seq<Seq<char>>,
    quad: u32,
)
    ensures
        walk_nodes(ns, parent, at, paths, quad).0.len() == preorder_nodes(ns).len(),
        forall|r: int|
            0 <= r < ns.len() ==> #[trigger] root_hangs(
                ns,
                walk_nodes(ns, parent, at, paths, quad).0,
                parent,
                r,
            ),
        children_hang_from_parent(preorder_nodes(ns), walk_nodes(ns, parent, at, paths, quad).0, at),
    decreases ns,
{
    if ns.len() > 0 {
        let first = walk_node(ns[0], parent, at, paths, quad);
        let rest = walk_nodes(ns.drop_first(), parent, at + first.0.len(), paths, quad);
        let w = walk_nodes(ns, parent, at, paths, quad);
        let p0 = preorder_node(ns[0]);
        let pr = preorder_nodes(ns.drop_first());
        let pre = preorder_nodes(ns);
        assert(w.0 == first.0 + rest.0);
        assert(pre == p0 + pr);
        lemma_walk_node_parents(ns[0], parent, at, paths, quad);
        lemma_walk_nodes_parents(ns.drop_first(), parent, at + first.0.len(), paths, quad);
        assert forall|r: int| 0 <= r < ns.len() implies #[trigger] root_hangs(ns, w.0, parent, r) by {
            if r == 0 {
                assert(ns.take(0) =~= Seq::<Node>::empty());
                assert(p0[0] == ns[0]);
                assert(pre[0] == p0[0]);
                assert(w.0[0] == first.0[0]);
            } else {
                lemma_preorder_take(ns, r);
                let q = preorder_nodes(ns.drop_first().take(r - 1)).len() as int;
                assert(root_hangs(ns.drop_first(), rest.0, parent, r - 1));
                assert(ns.drop_first()[r - 1] == ns[r]);
                assert(pr[q] == ns.drop_first()[r - 1]);
                assert(pre[p0.len() + q] == pr[q]);
                assert(w.0[first.0.len() + q] == rest.0[q]);
            }
        }
        assert forall|k: int, i: int|
            0 <= k < pre.len() && 0 <= i < pre[k].children@.len() implies #[trigger] child_hangs(pre, w.0, at, k, i) by {
            if k < p0.len() {
                assert(pre[k] == p0[k]);
                assert(children_hang_from_parent(p0, first.0, at));
                assert(0 <= i < p0[k].children@.len());
                assert(p0[k].children@[i] == pre[k].children@[i]);
                assert(child_hangs(p0, first.0, at, k, i));
                let p = k + child_position(p0[k], i);
                assert(p0[p] == p0[k].children@[i]);
                assert(pre[p] == p0[p]);
                assert(w.0[p] == first.0[p]);
            } else {
                let k2 = k - p0.len();
                assert(pre[k] == pr[k2]);
                assert(children_hang_from_parent(pr, rest.0, at + first.0.len()));
                assert(0 <= i < pr[k2].children@.len());
                assert(pr[k2].children@[i] == pre[k].children@[i]);
                assert(child_hangs(pr, rest.0, at + first.0.len(), k2, i));
                let p2 = k2 + child_position(pr[k2], i);
                assert(pr[p2] == pr[k2].children@[i]);
                assert(pre[p0.len() + p2] == pr[p2]);
                assert(w.0[first.0.len() + p2] == rest.0[p2]);
            }
        }
    }
}

/// Every node of a scene hangs from its own parent in the draw plan: a root
/// has no parent, and child `i` of the node at walk position `k` stands at
/// `k + child_position` and has parent `k`, so its world transform is its
/// parent's times its own, all the way up.
pub proof fn law_children_hang_from_their_parent(sc: Scene)
    ensures
        ({
            let ms = scene_meshes(sc);
            let w = walk_nodes(sc.nodes@, None, 0, ms, path_position(ms, quad_path()) as u32);
            let pre = preorder_nodes(sc.nodes@);
            &&& w.0.len() == pre.len()
            &&& forall|r: int|
                0 <= r < sc.nodes@.len() ==> #[trigger] root_hangs(sc.nodes@, w.0, None, r)
            &&& children_hang_from_parent(pre, w.0, 0)
        }),
{
    let ms = scene_meshes(sc);
    lemma_walk_nodes_parents(sc.nodes@, None, 0, ms, path_position(ms, quad_path()) as u32);
}

} // verus!
