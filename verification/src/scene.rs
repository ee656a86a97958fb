//! The scene document the editor edits and the games load, and the editor's
//! operations on it: the undo history, and painting and erasing ground tiles.
//!
//! Real-valued fields (translation, rotation, scale, tile size, colour) are
//! carried as the IEEE-754 bit patterns of their `f32` values. Nothing here
//! computes with them; they pass through unchanged.
use crate::text::{first_index, lemma_first_index, lemma_first_index_bounds};
use vstd::prelude::*;

verus! {

broadcast use vstd::string::group_string_axioms;

/// The bit pattern of `1.0f32`.
pub const ONE_BITS: u32 = 0x3f80_0000;

/// Translation, rotation (quaternion x, y, z, w) and scale, as `f32` bits.
#[derive(Clone, Copy, Debug)]
pub struct Transform {
    pub translation: [u32; 3],
    pub rotation: [u32; 4],
    pub scale: [u32; 3],
}

impl Transform {
    /// No translation, no rotation, unit scale.
    pub fn identity() -> (r: Transform)
        ensures
            r == identity_transform(),
    {
        Transform {
            translation: [0, 0, 0],
            rotation: [0, 0, 0, ONE_BITS],
            scale: [ONE_BITS, ONE_BITS, ONE_BITS],
        }
    }
}

pub open spec fn identity_transform() -> Transform {
    Transform {
        translation: [0, 0, 0],
        rotation: [0, 0, 0, ONE_BITS],
        scale: [ONE_BITS, ONE_BITS, ONE_BITS],
    }
}

/// Reference to a mesh asset, by workspace-relative path.
pub struct MeshRef {
    pub path: String,
}

/// One painted tile of a tilemap.
#[derive(Clone, Copy, PartialEq, Eq, Debug, Structural)]
pub struct Cell {
    pub x: i32,
    pub y: i32,
    pub tile_id: u32,
}

/// A 2D tilemap. `tileset` is the path of a tileset file.
pub struct Tilemap {
    pub tileset: String,
    /// World-space size of one tile, as `f32` bits.
    pub tile_size: [u32; 2],
    pub cells: Vec<Cell>,
}

/// A component attached to a node.
#[derive(Clone, Copy, PartialEq, Eq, Debug, Structural)]
pub enum ComponentValue {
    PlayerControlled,
}

pub struct Node {
    pub name: String,
    pub transform: Transform,
    pub mesh: Option<MeshRef>,
    pub tilemap: Option<Tilemap>,
    pub components: Vec<ComponentValue>,
    pub children: Vec<Node>,
}

/// The document stored in a scene file.
pub struct Scene {
    pub name: String,
    pub nodes: Vec<Node>,
}

/// One tile of a tileset; `color` is linear sRGB as `f32` bits.
pub struct Tile {
    pub id: u32,
    pub name: String,
    pub color: [u32; 3],
}

/// The document stored in a tileset file.
pub struct Tileset {
    pub name: String,
    pub tiles: Vec<Tile>,
}

impl Default for Transform {
    fn default() -> (r: Transform)
        ensures
            r == identity_transform(),
    {
        Transform::identity()
    }
}

impl Default for Node {
    /// A node with an empty name, the identity transform and nothing else.
    fn default() -> (r: Node)
        ensures
            r.name@ == Seq::<char>::empty(),
            r.transform == identity_transform(),
            r.mesh is None,
            r.tilemap is None,
            r.components@.len() == 0,
            r.children@.len() == 0,
    {
        Node {
            name: String::new(),
            transform: Transform::identity(),
            mesh: None,
            tilemap: None,
            components: Vec::new(),
            children: Vec::new(),
        }
    }
}

impl Default for Scene {
    /// An unnamed scene with no nodes.
    fn default() -> (r: Scene)
        ensures
            r.name@ == Seq::<char>::empty(),
            r.nodes@.len() == 0,
    {
        Scene { name: String::new(), nodes: Vec::new() }
    }
}

impl Default for Tileset {
    /// An unnamed tileset with no tiles.
    fn default() -> (r: Tileset)
        ensures
            r.name@ == Seq::<char>::empty(),
            r.tiles@.len() == 0,
    {
        Tileset { name: String::new(), tiles: Vec::new() }
    }
}

fn copy_mesh_ref(m: &Option<MeshRef>) -> (r: Option<MeshRef>)
    ensures
        r == *m,
{
    match m {
        Some(mr) => Some(MeshRef { path: mr.path.clone() }),
        None => None,
    }
}

fn copy_cells(cells: &Vec<Cell>) -> (r: Vec<Cell>)
    ensures
        r@ == cells@,
{
    let mut out: Vec<Cell> = Vec::new();
    let mut i: usize = 0;
    while i < cells.len()
        invariant
            i <= cells@.len(),
            out@ == cells@.subrange(0, i as int),
        decreases cells@.len() - i,
    {
        out.push(cells[i]);
        assert(out@ =~= cells@.subrange(0, i + 1));
        i = i + 1;
    }
    assert(cells@.subrange(0, cells@.len() as int) =~= cells@);
    out
}

fn copy_tilemap(t: &Option<Tilemap>) -> (r: Option<Tilemap>)
    ensures
        r is Some <==> t is Some,
        r matches Some(a) ==> t matches Some(b) && a.tileset == b.tileset && a.tile_size
            == b.tile_size && a.cells@ == b.cells@,
{
    match t {
        Some(tm) => Some(
            Tilemap {
                tileset: tm.tileset.clone(),
                tile_size: tm.tile_size,
                cells: copy_cells(&tm.cells),
            },
        ),
        None => None,
    }
}

fn copy_components(cs: &Vec<ComponentValue>) -> (r: Vec<ComponentValue>)
    ensures
        r@ == cs@,
{
    let mut out: Vec<ComponentValue> = Vec::new();
    let mut i: usize = 0;
    while i < cs.len()
        invariant
            i <= cs@.len(),
            out@ == cs@.subrange(0, i as int),
        decreases cs@.len() - i,
    {
        out.push(cs[i]);
        assert(out@ =~= cs@.subrange(0, i + 1));
        i = i + 1;
    }
    assert(cs@.subrange(0, cs@.len() as int) =~= cs@);
    out
}

/// Two nodes are the same document: equal names, transforms, meshes,
/// components, tilemaps (cells compared as sequences) and children, recursively.
pub open spec fn same_node(a: Node, b: Node) -> bool
    decreases a,
{
    &&& a.name@ == b.name@
    &&& a.transform == b.transform
    &&& a.mesh == b.mesh
    &&& a.components@ == b.components@
    &&& (a.tilemap is Some <==> b.tilemap is Some)
    &&& (a.tilemap matches Some(ta) ==> b.tilemap matches Some(tb) && ta.tileset@ == tb.tileset@
        && ta.tile_size == tb.tile_size && ta.cells@ == tb.cells@)
    &&& a.children@.len() == b.children@.len()
    &&& forall|i: int|
        0 <= i < a.children@.len() ==> same_node(#[trigger] a.children@[i], b.children@[i])
}

/// Two node lists are the same document, node by node.
pub open spec fn same_nodes(a: Seq<Node>, b: Seq<Node>) -> bool {
    &&& a.len() == b.len()
    &&& forall|i: int| 0 <= i < a.len() ==> same_node(#[trigger] a[i], b[i])
}

/// Two scenes are the same document.
pub open spec fn same_scene(a: Scene, b: Scene) -> bool {
    a.name@ == b.name@ && same_nodes(a.nodes@, b.nodes@)
}

/// A deep copy of a node.
pub fn copy_node(n: &Node) -> (r: Node)
    ensures
        same_node(*n, r),
    decreases n,
{
    let mut children: Vec<Node> = Vec::new();
    let mut i: usize = 0;
    while i < n.children.len()
        invariant
            i <= n.children@.len(),
            children@.len() == i,
            forall|k: int| 0 <= k < i ==> same_node(#[trigger] n.children@[k], children@[k]),
        decreases n.children@.len() - i,
    {
        proof {
            assert(decreases_to!(n => n.children));
        }
        let c = copy_node(&n.children[i]);
        children.push(c);
        i = i + 1;
    }
    Node {
        name: n.name.clone(),
        transform: n.transform,
        mesh: copy_mesh_ref(&n.mesh),
        tilemap: copy_tilemap(&n.tilemap),
        components: copy_components(&n.components),
        children,
    }
}

/// A deep copy of a scene.
pub fn copy_scene(s: &Scene) -> (r: Scene)
    ensures
        same_scene(*s, r),
{
    let mut nodes: Vec<Node> = Vec::new();
    let mut i: usize = 0;
    while i < s.nodes.len()
        invariant
            i <= s.nodes@.len(),
            nodes@.len() == i,
            forall|k: int| 0 <= k < i ==> same_node(#[trigger] s.nodes@[k], nodes@[k]),
        decreases s.nodes@.len() - i,
    {
        let c = copy_node(&s.nodes[i]);
        nodes.push(c);
        i = i + 1;
    }
    Scene { name: s.name.clone(), nodes }
}

/// How many edits the undo history keeps.
pub const UNDO_DEPTH: usize = 100;

/// The history after `c` is recorded: appended, and the oldest entry dropped
/// once there are more than `UNDO_DEPTH`.
pub open spec fn recorded(history: Seq<Scene>, c: Scene) -> Seq<Scene> {
    if history.len() + 1 > UNDO_DEPTH {
        history.push(c).drop_first()
    } else {
        history.push(c)
    }
}

/// Record a copy of `scene` in the undo history, keeping at most
/// `UNDO_DEPTH` entries (once over, the oldest goes).
pub fn push_undo_helper(stack: &mut Vec<Scene>, scene: &Scene)
    ensures
        final(stack)@.len() > 0,
        final(stack)@ == recorded(old(stack)@, final(stack)@.last()),
        same_scene(*scene, final(stack)@.last()),
{
    let c = copy_scene(scene);
    stack.push(c);
    if stack.len() > UNDO_DEPTH {
        stack.remove(0);
        assert(final(stack)@ =~= old(stack)@.push(c).drop_first());
    }
}

/// Step back one edit: the last recorded scene becomes the scene. With an
/// empty history nothing changes and `false` comes back.
pub fn undo(stack: &mut Vec<Scene>, scene: &mut Scene) -> (r: bool)
    ensures
        r == (old(stack)@.len() > 0),
        !r ==> final(stack)@ == old(stack)@ && *final(scene) == *old(scene),
        r ==> final(stack)@ == old(stack)@.drop_last() && *final(scene) == old(stack)@.last(),
{
    match stack.pop() {
        Some(prev) => {
            *scene = prev;
            true
        },
        None => false,
    }
}

/// Undo gives back what the last record took: recording a scene and then
/// undoing restores that scene and the history as it was, and the history
/// never grows past `UNDO_DEPTH`.
pub proof fn law_undo_restores_recorded(history: Seq<Scene>, c: Scene)
    ensures
        recorded(history, c).len() > 0,
        recorded(history, c).last() == c,
        history.len() < UNDO_DEPTH ==> recorded(history, c).drop_last() == history,
        history.len() <= UNDO_DEPTH ==> recorded(history, c).len() <= UNDO_DEPTH,
{
    if history.len() < UNDO_DEPTH {
        assert(history.push(c).drop_last() =~= history);
    }
}

pub open spec fn at_cell(x: i32, y: i32) -> spec_fn(Cell) -> bool {
    |c: Cell| c.x == x && c.y == y
}

pub open spec fn not_at_cell(x: i32, y: i32) -> spec_fn(Cell) -> bool {
    |c: Cell| !(c.x == x && c.y == y)
}

/// The cells after painting `tile_id` at `(x, y)`: the first cell there takes
/// the tile, or a new cell is added at the end when none is there.
pub open spec fn painted(cells: Seq<Cell>, x: i32, y: i32, tile_id: u32) -> Seq<Cell> {
    let i = first_index(cells, at_cell(x, y));
    if i < cells.len() {
        cells.update(i as int, Cell { tile_id, ..cells[i as int] })
    } else {
        cells.push(Cell { x, y, tile_id })
    }
}

/// The cells after erasing `(x, y)`: every cell there goes, the rest stay in
/// order.
pub open spec fn erased(cells: Seq<Cell>, x: i32, y: i32) -> Seq<Cell> {
    cells.filter(not_at_cell(x, y))
}

/// No two cells share a position.
pub open spec fn unique_cells(cells: Seq<Cell>) -> bool {
    forall|i: int, j: int|
        0 <= i < j < cells.len() ==> !(#[trigger] cells[i].x == #[trigger] cells[j].x && cells[i].y
            == cells[j].y)
}

/// Paint `tile_id` at `(x, y)`.
pub fn paint_cell(cells: &mut Vec<Cell>, x: i32, y: i32, tile_id: u32)
    ensures
        final(cells)@ == painted(old(cells)@, x, y, tile_id),
{
    let mut i: usize = 0;
    while i < cells.len()
        invariant
            i <= cells@.len(),
            cells@ == old(cells)@,
            forall|k: int| 0 <= k < i ==> !(#[trigger] at_cell(x, y)(cells@[k])),
        decreases cells@.len() - i,
    {
        let c = cells[i];
        if c.x == x && c.y == y {
            proof {
                lemma_first_index(cells@, at_cell(x, y), i as int);
            }
            cells.set(i, Cell { x: c.x, y: c.y, tile_id });
            return;
        }
        i = i + 1;
    }
    proof {
        lemma_first_index(cells@, at_cell(x, y), i as int);
    }
    cells.push(Cell { x, y, tile_id });
}

/// Erase every cell at `(x, y)`.
pub fn erase_cell(cells: &mut Vec<Cell>, x: i32, y: i32)
    ensures
        final(cells)@ == erased(old(cells)@, x, y),
{
    broadcast use vstd::seq::Seq::lemma_filter_push;

    let mut kept: Vec<Cell> = Vec::new();
    let mut i: usize = 0;
    assert(cells@.subrange(0, 0).filter(not_at_cell(x, y)) =~= Seq::<Cell>::empty()) by {
        reveal(Seq::filter);
    }
    while i < cells.len()
        invariant
            i <= cells@.len(),
            kept@ == cells@.subrange(0, i as int).filter(not_at_cell(x, y)),
        decreases cells@.len() - i,
    {
        let c = cells[i];
        assert(cells@.subrange(0, i + 1) =~= cells@.subrange(0, i as int).push(c));
        proof {
            cells@.subrange(0, i as int).lemma_filter_push(c, not_at_cell(x, y));
        }
        if !(c.x == x && c.y == y) {
            kept.push(c);
        }
        i = i + 1;
    }
    assert(cells@.subrange(0, cells@.len() as int) =~= cells@);
    *cells = kept;
}

/// Painting sets the tile and leaves every other position alone; on a grid
/// where no two cells share a position, it keeps that so and the painted
/// position holds exactly one cell, with the tile.
pub proof fn law_paint(cells: Seq<Cell>, x: i32, y: i32, tile_id: u32)
    ensures
        exists|i: int|
            0 <= i < painted(cells, x, y, tile_id).len() && #[trigger] painted(
                cells,
                x,
                y,
                tile_id,
            )[i] == (Cell { x, y, tile_id }),
        erased(painted(cells, x, y, tile_id), x, y) == erased(cells, x, y),
        unique_cells(cells) ==> unique_cells(painted(cells, x, y, tile_id)),
{
    broadcast use vstd::seq::Seq::lemma_filter_push;

    lemma_first_index_bounds(cells, at_cell(x, y));
    let i = first_index(cells, at_cell(x, y));
    let p = painted(cells, x, y, tile_id);
    if i < cells.len() {
        assert(p[i as int] == (Cell { x, y, tile_id }));
        lemma_filter_same_outside(cells, p, x, y);
    } else {
        assert(p[cells.len() as int] == (Cell { x, y, tile_id }));
        assert forall|a: int, b: int| 0 <= a < b < p.len() && unique_cells(cells) implies !(
        #[trigger] p[a].x == #[trigger] p[b].x && p[a].y == p[b].y) by {
            if b == cells.len() {
                assert(!at_cell(x, y)(cells[a]));
            }
        }
    }
}

/// Two grids that differ only at `(x, y)` erase to the same grid there.
proof fn lemma_filter_same_outside(a: Seq<Cell>, b: Seq<Cell>, x: i32, y: i32)
    requires
        a.len() == b.len(),
        forall|k: int|
            0 <= k < a.len() ==> (#[trigger] a[k] == b[k] || (at_cell(x, y)(a[k]) && at_cell(x, y)(
                b[k]))),
    ensures
        a.filter(not_at_cell(x, y)) == b.filter(not_at_cell(x, y)),
    decreases a.len(),
{
    broadcast use vstd::seq::Seq::lemma_filter_push;

    if a.len() == 0 {
        assert(a =~= b);
    } else {
        let a1 = a.drop_last();
        let b1 = b.drop_last();
        assert forall|k: int| 0 <= k < a1.len() implies (#[trigger] a1[k] == b1[k] || (at_cell(
            x,
            y,
        )(a1[k]) && at_cell(x, y)(b1[k]))) by {
            assert(a1[k] == a[k] && b1[k] == b[k]);
        }
        lemma_filter_same_outside(a1, b1, x, y);
        assert(a =~= a1.push(a.last()));
        assert(b =~= b1.push(b.last()));
    }
}

/// Erasing leaves no cell at `(x, y)`, keeps every other cell, and erasing
/// again changes nothing.
pub proof fn law_erase(cells: Seq<Cell>, x: i32, y: i32)
    ensures
        forall|k: int|
            0 <= k < erased(cells, x, y).len() ==> !(#[trigger] erased(cells, x, y)[k].x == x
                && erased(cells, x, y)[k].y == y),
        forall|k: int|
            0 <= k < cells.len() && !(cells[k].x == x && cells[k].y == y) ==> erased(
                cells,
                x,
                y,
            ).contains(#[trigger] cells[k]),
        erased(erased(cells, x, y), x, y) == erased(cells, x, y),
{
    let e = erased(cells, x, y);
    assert forall|k: int| 0 <= k < e.len() implies !(#[trigger] e[k].x == x && e[k].y == y) by {
        cells.lemma_filter_pred(not_at_cell(x, y), k);
    }
    assert forall|k: int|
        0 <= k < cells.len() && !(cells[k].x == x && cells[k].y == y) implies e.contains(
        #[trigger] cells[k],
    ) by {
        cells.lemma_filter_contains(not_at_cell(x, y), k);
    }
    lemma_filter_all_pass(e, x, y);
}

proof fn lemma_filter_all_pass(s: Seq<Cell>, x: i32, y: i32)
    requires
        forall|k: int| 0 <= k < s.len() ==> !(#[trigger] s[k].x == x && s[k].y == y),
    ensures
        s.filter(not_at_cell(x, y)) == s,
    decreases s.len(),
{
    broadcast use vstd::seq::Seq::lemma_filter_push;

    if s.len() == 0 {
        assert(s.filter(not_at_cell(x, y)) =~= s) by {
            reveal(Seq::filter);
        }
    } else {
        let s1 = s.drop_last();
        assert forall|k: int| 0 <= k < s1.len() implies !(#[trigger] s1[k].x == x && s1[k].y
            == y) by {
            assert(s1[k] == s[k]);
        }
        lemma_filter_all_pass(s1, x, y);
        assert(s =~= s1.push(s.last()));
        assert(!(s[s.len() - 1].x == x && s[s.len() - 1].y == y));
    }
}

pub open spec fn has_tilemap() -> spec_fn(Node) -> bool {
    |n: Node| n.tilemap is Some
}

pub open spec fn ground_name() -> Seq<char> {
    seq!['g', 'r', 'o', 'u', 'n', 'd']
}

/// The tileset a new ground tilemap uses.
pub open spec fn town_tileset() -> Seq<char> {
    seq![
        'a', 's', 's', 'e', 't', 's', '/', 't', 'i', 'l', 'e', 's', 'e', 't', 's', '/', 't', 'o',
        'w', 'n', '.', 't', 'r', 'e', 's', '.', 'r', 'o', 'n',
    ]
}

/// A freshly made ground node: an empty tilemap of unit tiles on the town
/// tileset, at the origin, with nothing else.
pub open spec fn is_new_ground(n: Node) -> bool {
    &&& n.name@ == ground_name()
    &&& n.transform == identity_transform()
    &&& n.mesh is None
    &&& n.components@.len() == 0
    &&& n.children@.len() == 0
    &&& n.tilemap matches Some(t) && t.tileset@ == town_tileset() && t.tile_size == [
        ONE_BITS,
        ONE_BITS,
    ] && t.cells@.len() == 0
}

/// The index of the ground: the first node with a tilemap, made (and
/// appended) when there is none. Running it twice changes nothing the second
/// time.
pub fn ensure_ground(sc: &mut Scene) -> (r: usize)
    ensures
        first_index(old(sc).nodes@, has_tilemap()) < old(sc).nodes@.len() ==> r == first_index(
            old(sc).nodes@,
            has_tilemap(),
        ) && *final(sc) == *old(sc),
        first_index(old(sc).nodes@, has_tilemap()) >= old(sc).nodes@.len() ==> {
            &&& r == old(sc).nodes@.len()
            &&& final(sc).name == old(sc).name
            &&& final(sc).nodes@.len() == old(sc).nodes@.len() + 1
            &&& forall|k: int| 0 <= k < old(sc).nodes@.len() ==> final(sc).nodes@[k] == old(sc).nodes@[k]
            &&& is_new_ground(final(sc).nodes@[r as int])
        },
        r < final(sc).nodes@.len(),
        first_index(final(sc).nodes@, has_tilemap()) == r,
{
    let mut i: usize = 0;
    while i < sc.nodes.len()
        invariant
            i <= sc.nodes@.len(),
            forall|k: int| 0 <= k < i ==> !(#[trigger] has_tilemap()(sc.nodes@[k])),
        decreases sc.nodes@.len() - i,
    {
        if sc.nodes[i].tilemap.is_some() {
            proof {
                lemma_first_index(sc.nodes@, has_tilemap(), i as int);
            }
            return i;
        }
        i = i + 1;
    }
    proof {
        lemma_first_index(sc.nodes@, has_tilemap(), i as int);
    }
    let name = "ground".to_string();
    let tileset = "assets/tilesets/town.tres.ron".to_string();
    proof {
        reveal_strlit("ground");
        reveal_strlit("assets/tilesets/town.tres.ron");
        assert(name@ =~= ground_name());
        assert(tileset@ =~= town_tileset());
    }
    sc.nodes.push(
        Node {
            name,
            transform: Transform::identity(),
            mesh: None,
            tilemap: Some(Tilemap { tileset, tile_size: [ONE_BITS, ONE_BITS], cells: Vec::new() }),
            components: Vec::new(),
            children: Vec::new(),
        },
    );
    proof {
        let n = sc.nodes@;
        assert forall|k: int| 0 <= k < i implies !(#[trigger] has_tilemap()(n[k])) by {
            assert(n[k] == old(sc).nodes@[k]);
        }
        lemma_first_index(n, has_tilemap(), i as int);
    }
    i
}

/// Node `b` is node `a` with its tilemap's cells replaced by `cells`.
pub open spec fn with_cells(a: Node, b: Node, cells: Seq<Cell>) -> bool {
    &&& b.name == a.name
    &&& b.transform == a.transform
    &&& b.mesh == a.mesh
    &&& b.components == a.components
    &&& b.children == a.children
    &&& a.tilemap matches Some(ta) && b.tilemap matches Some(tb) && tb.tileset == ta.tileset
        && tb.tile_size == ta.tile_size && tb.cells@ == cells
}

/// Scene `b` is scene `a` with node `idx`'s cells replaced by `cells`.
pub open spec fn scene_with_cells(a: Scene, b: Scene, idx: int, cells: Seq<Cell>) -> bool {
    &&& b.name == a.name
    &&& b.nodes@.len() == a.nodes@.len()
    &&& forall|k: int| 0 <= k < a.nodes@.len() && k != idx ==> b.nodes@[k] == a.nodes@[k]
    &&& with_cells(a.nodes@[idx], b.nodes@[idx], cells)
}

/// Replace the cells of the tilemap at node `idx`.
fn set_cells(sc: &mut Scene, idx: usize, cells: Vec<Cell>)
    requires
        idx < old(sc).nodes@.len(),
        old(sc).nodes@[idx as int].tilemap is Some,
    ensures
        scene_with_cells(*old(sc), *final(sc), idx as int, cells@),
{
    let node = sc.nodes.remove(idx);
    let Node { name, transform, mesh, tilemap, components, children } = node;
    match tilemap {
        Some(tm) => {
            let Tilemap { tileset, tile_size, cells: _old_cells } = tm;
            let new_node = Node {
                name,
                transform,
                mesh,
                tilemap: Some(Tilemap { tileset, tile_size, cells }),
                components,
                children,
            };
            sc.nodes.insert(idx, new_node);
            assert forall|k: int| 0 <= k < old(sc).nodes@.len() && k != idx implies sc.nodes@[k]
                == old(sc).nodes@[k] by {
                if k < idx {
                } else {
                }
            }
        },
        None => {
            let back = Node { name, transform, mesh, tilemap: None, components, children };
            sc.nodes.insert(idx, back);
        },
    }
}

/// Paint `tile_id` at `(x, y)` on the tilemap at node `idx`.
pub fn paint_tile(sc: &mut Scene, idx: usize, x: i32, y: i32, tile_id: u32)
    requires
        idx < old(sc).nodes@.len(),
        old(sc).nodes@[idx as int].tilemap is Some,
    ensures
        scene_with_cells(
            *old(sc),
            *final(sc),
            idx as int,
            painted(old(sc).nodes@[idx as int].tilemap->0.cells@, x, y, tile_id),
        ),
{
    let mut cells = match &sc.nodes[idx].tilemap {
        Some(tm) => copy_cells(&tm.cells),
        None => Vec::new(),
    };
    paint_cell(&mut cells, x, y, tile_id);
    set_cells(sc, idx, cells);
}

/// Erase every cell at `(x, y)` on the tilemap at node `idx`.
pub fn erase_tile(sc: &mut Scene, idx: usize, x: i32, y: i32)
    requires
        idx < old(sc).nodes@.len(),
        old(sc).nodes@[idx as int].tilemap is Some,
    ensures
        scene_with_cells(
            *old(sc),
            *final(sc),
            idx as int,
            erased(old(sc).nodes@[idx as int].tilemap->0.cells@, x, y),
        ),
{
    let mut cells = match &sc.nodes[idx].tilemap {
        Some(tm) => copy_cells(&tm.cells),
        None => Vec::new(),
    };
    erase_cell(&mut cells, x, y);
    set_cells(sc, idx, cells);
}

/// The mesh path a node names itself, if any.
pub open spec fn mesh_of(n: Node) -> Seq<Seq<char>> {
    match n.mesh {
        Some(m) => seq![m.path@],
        None => Seq::empty(),
    }
}

/// The mesh paths a node names, in walk order: its own, then its children's.
pub open spec fn node_mesh_paths(n: Node) -> Seq<Seq<char>>
    decreases n,
{
    mesh_of(n) + nodes_mesh_paths(n.children@)
}

/// The mesh paths a list of nodes names, in walk order.
pub open spec fn nodes_mesh_paths(ns: Seq<Node>) -> Seq<Seq<char>>
    decreases ns,
{
    if ns.len() == 0 {
        Seq::empty()
    } else {
        node_mesh_paths(ns[0]) + nodes_mesh_paths(ns.drop_first())
    }
}

/// `acc` with `p` added unless it is already there.
pub open spec fn add_path(acc: Seq<Seq<char>>, p: Seq<char>) -> Seq<Seq<char>> {
    if acc.contains(p) {
        acc
    } else {
        acc.push(p)
    }
}

/// `acc` with each of `ps` added in order, each path once.
pub open spec fn add_paths(acc: Seq<Seq<char>>, ps: Seq<Seq<char>>) -> Seq<Seq<char>>
    decreases ps.len(),
{
    if ps.len() == 0 {
        acc
    } else {
        add_paths(add_path(acc, ps[0]), ps.drop_first())
    }
}

pub open spec fn strs(v: Seq<String>) -> Seq<Seq<char>> {
    v.map_values(|s: String| s@)
}

proof fn lemma_add_paths_append(acc: Seq<Seq<char>>, a: Seq<Seq<char>>, b: Seq<Seq<char>>)
    ensures
        add_paths(acc, a + b) == add_paths(add_paths(acc, a), b),
    decreases a.len(),
{
    if a.len() == 0 {
        assert(a + b =~= b);
    } else {
        assert((a + b).drop_first() =~= a.drop_first() + b);
        assert((a + b)[0] == a[0]);
        lemma_add_paths_append(add_path(acc, a[0]), a.drop_first(), b);
    }
}

/// Add `p` to `paths` unless it is already there.
fn add_path_exec(paths: &mut Vec<String>, p: &String)
    ensures
        strs(final(paths)@) == add_path(strs(old(paths)@), p@),
{
    let ghost v = strs(paths@);
    let mut i: usize = 0;
    while i < paths.len()
        invariant
            i <= paths@.len(),
            v == strs(paths@),
            paths@ == old(paths)@,
            forall|k: int| 0 <= k < i ==> v[k] != p@,
        decreases paths@.len() - i,
    {
        if paths[i] == *p {
            assert(v[i as int] == p@);
            assert(v.contains(p@));
            return;
        }
        i = i + 1;
    }
    assert(!v.contains(p@));
    paths.push(p.clone());
    assert(strs(paths@) =~= v.push(p@));
}

/// Add the mesh paths of `n`, in walk order, to `paths`.
fn collect_node(n: &Node, paths: &mut Vec<String>)
    ensures
        strs(final(paths)@) == add_paths(strs(old(paths)@), node_mesh_paths(*n)),
    decreases n,
{
    let ghost own: Seq<Seq<char>> = mesh_of(*n);
    match &n.mesh {
        Some(m) => {
            add_path_exec(paths, &m.path);
            assert(own.drop_first() =~= Seq::<Seq<char>>::empty());
        },
        None => {},
    }
    proof {
        reveal_with_fuel(add_paths, 2);
    }
    assert(strs(paths@) == add_paths(strs(old(paths)@), own));
    proof {
        assert(decreases_to!(n => n.children));
    }
    collect_nodes(&n.children, paths);
    proof {
        lemma_add_paths_append(strs(old(paths)@), own, nodes_mesh_paths(n.children@));
    }
}

/// Add the mesh paths of `ns`, in walk order, to `paths`.
fn collect_nodes(ns: &Vec<Node>, paths: &mut Vec<String>)
    ensures
        strs(final(paths)@) == add_paths(strs(old(paths)@), nodes_mesh_paths(ns@)),
    decreases ns,
{
    let mut i: usize = 0;
    assert(ns@.subrange(0, 0) =~= Seq::<Node>::empty());
    while i < ns.len()
        invariant
            i <= ns@.len(),
            strs(paths@) == add_paths(strs(old(paths)@), nodes_mesh_paths(ns@.subrange(0, i as int))),
        decreases ns@.len() - i,
    {
        let ghost before = strs(paths@);
        proof {
            assert(decreases_to!(ns => ns@[i as int]));
        }
        collect_node(&ns[i], paths);
        proof {
            lemma_nodes_mesh_paths_push(ns@.subrange(0, i as int), ns@[i as int]);
            assert(ns@.subrange(0, i + 1) =~= ns@.subrange(0, i as int).push(ns@[i as int]));
            lemma_add_paths_append(
                strs(old(paths)@),
                nodes_mesh_paths(ns@.subrange(0, i as int)),
                node_mesh_paths(ns@[i as int]),
            );
        }
        i = i + 1;
    }
    assert(ns@.subrange(0, ns@.len() as int) =~= ns@);
}

proof fn lemma_nodes_mesh_paths_push(ns: Seq<Node>, n: Node)
    ensures
        nodes_mesh_paths(ns.push(n)) == nodes_mesh_paths(ns) + node_mesh_paths(n),
    decreases ns.len(),
{
    if ns.len() == 0 {
        let e = Seq::<Node>::empty();
        assert(ns.push(n).drop_first() =~= e);
        assert(nodes_mesh_paths(e) == Seq::<Seq<char>>::empty());
        assert(ns.push(n)[0] == n);
        assert(nodes_mesh_paths(ns.push(n)) == node_mesh_paths(n) + nodes_mesh_paths(e));
        assert(node_mesh_paths(n) + Seq::<Seq<char>>::empty() =~= node_mesh_paths(n));
        assert(Seq::<Seq<char>>::empty() + node_mesh_paths(n) =~= node_mesh_paths(n));
    } else {
        assert(ns.push(n).drop_first() =~= ns.drop_first().push(n));
        lemma_nodes_mesh_paths_push(ns.drop_first(), n);
        assert(ns.push(n)[0] == ns[0]);
        assert((node_mesh_paths(ns[0]) + nodes_mesh_paths(ns.drop_first())) + node_mesh_paths(n)
            =~= node_mesh_paths(ns[0]) + (nodes_mesh_paths(ns.drop_first()) + node_mesh_paths(n)));
    }
}

/// The distinct mesh paths a scene names, in first-appearance walk order.
pub fn collect_mesh_paths(sc: &Scene) -> (r: Vec<String>)
    ensures
        strs(r@) == add_paths(Seq::empty(), nodes_mesh_paths(sc.nodes@)),
{
    let mut paths: Vec<String> = Vec::new();
    assert(strs(paths@) =~= Seq::<Seq<char>>::empty());
    collect_nodes(&sc.nodes, &mut paths);
    paths
}

/// The position of `path` among `paths`, or `None`.
pub fn mesh_index(paths: &Vec<String>, path: &String) -> (r: Option<usize>)
    ensures
        r matches Some(i) ==> i < paths@.len() && paths@[i as int]@ == path@ && forall|k: int|
            0 <= k < i ==> paths@[k]@ != path@,
        r is None ==> forall|k: int| 0 <= k < paths@.len() ==> paths@[k]@ != path@,
{
    let mut i: usize = 0;
    while i < paths.len()
        invariant
            i <= paths@.len(),
            forall|k: int| 0 <= k < i ==> paths@[k]@ != path@,
        decreases paths@.len() - i,
    {
        if paths[i] == *path {
            return Some(i);
        }
        i = i + 1;
    }
    None
}

/// The position of `path` among `paths`, appending it when it is missing.
pub fn ensure_mesh(paths: &mut Vec<String>, path: &String) -> (r: usize)
    ensures
        r < final(paths)@.len(),
        final(paths)@[r as int]@ == path@,
        forall|k: int| 0 <= k < r ==> final(paths)@[k]@ != path@,
        strs(final(paths)@) == add_path(strs(old(paths)@), path@),
{
    match mesh_index(paths, path) {
        Some(i) => {
            assert(strs(paths@)[i as int] == path@);
            i
        },
        None => {
            assert(!strs(paths@).contains(path@)) by {
                if strs(paths@).contains(path@) {
                    let k = choose|k: int| 0 <= k < strs(paths@).len() && strs(paths@)[k] == path@;
                    assert(paths@[k]@ == path@);
                }
            }
            paths.push(path.clone());
            assert(strs(paths@) =~= strs(old(paths)@).push(path@));
            paths.len() - 1
        },
    }
}

proof fn lemma_add_paths_facts(acc: Seq<Seq<char>>, ps: Seq<Seq<char>>)
    requires
        forall|i: int, j: int| 0 <= i < j < acc.len() ==> acc[i] != acc[j],
    ensures
        forall|i: int, j: int|
            0 <= i < j < add_paths(acc, ps).len() ==> add_paths(acc, ps)[i] != add_paths(acc, ps)[j],
        forall|i: int| 0 <= i < acc.len() ==> add_paths(acc, ps)[i] == acc[i],
        acc.len() <= add_paths(acc, ps).len(),
        forall|p: Seq<char>| ps.contains(p) ==> add_paths(acc, ps).contains(p),
        forall|p: Seq<char>| add_paths(acc, ps).contains(p) ==> acc.contains(p) || ps.contains(p),
    decreases ps.len(),
{
    if ps.len() > 0 {
        let a1 = add_path(acc, ps[0]);
        if !acc.contains(ps[0]) {
            assert(acc.push(ps[0])[acc.len() as int] == ps[0]);
        }
        assert forall|i: int| 0 <= i < acc.len() implies a1[i] == acc[i] by {}
        assert forall|i: int, j: int| 0 <= i < j < a1.len() implies a1[i] != a1[j] by {
            if !acc.contains(ps[0]) && j == acc.len() {
                assert(acc[i] == a1[i]);
            }
        }
        lemma_add_paths_facts(a1, ps.drop_first());
        let r = add_paths(acc, ps);
        assert(r == add_paths(a1, ps.drop_first()));
        assert(a1.contains(ps[0]));
        assert forall|p: Seq<char>| ps.contains(p) implies r.contains(p) by {
            let k = choose|k: int| 0 <= k < ps.len() && ps[k] == p;
            if k > 0 {
                assert(ps.drop_first()[k - 1] == p);
                assert(ps.drop_first().contains(p));
            } else {
                let m = choose|m: int| 0 <= m < a1.len() && a1[m] == p;
                assert(r[m] == a1[m]);
                assert(r[m] == p);
            }
        }
        assert forall|p: Seq<char>| r.contains(p) implies acc.contains(p) || ps.contains(p) by {
            if a1.contains(p) && !acc.contains(p) {
                assert(p == ps[0]);
            }
            if ps.drop_first().contains(p) {
                let k = choose|k: int| 0 <= k < ps.drop_first().len() && ps.drop_first()[k] == p;
                assert(ps[k + 1] == p);
            }
        }
    }
}

/// The collected mesh paths name each mesh once, and every mesh the scene
/// refers to, anywhere in its tree, is among them.
pub proof fn law_mesh_paths_distinct_and_complete(ns: Seq<Node>)
    ensures
        forall|i: int, j: int|
            0 <= i < j < add_paths(Seq::empty(), nodes_mesh_paths(ns)).len() ==> add_paths(
                Seq::empty(),
                nodes_mesh_paths(ns),
            )[i] != add_paths(Seq::empty(), nodes_mesh_paths(ns))[j],
        forall|p: Seq<char>|
            nodes_mesh_paths(ns).contains(p) <==> add_paths(
                Seq::empty(),
                nodes_mesh_paths(ns),
            ).contains(p),
{
    lemma_add_paths_facts(Seq::empty(), nodes_mesh_paths(ns));
}

} // verus!
