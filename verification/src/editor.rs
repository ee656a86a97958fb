//! The scene editor's rules, apart from its widgets: what a brush stroke or a
//! drop on the viewport does to the scene and the undo history, how nodes are
//! labelled and named, which asset files count as meshes, when a mesh file
//! is loaded into the mesh cache, and what the viewport draws.
use crate::scene::{
    ensure_ground, erase_tile, erased, is_new_ground, paint_tile, painted, push_undo_helper,
    recorded, same_scene, scene_with_cells, Cell, MeshRef, Node, Scene, Transform,
};
use crate::script::string_of;
use crate::text::{first_index, lemma_first_index_bounds, lemma_trailing, trailing};
use vstd::prelude::*;
use vstd::string::StringSliceAdditionalSpecFns;

verus! {

broadcast use vstd::string::group_string_axioms;

/// The characters of a string slice.
pub fn chars_of(s: &str) -> (r: Vec<char>)
    ensures
        r@ == s@,
{
    let mut out: Vec<char> = Vec::new();
    for c in it: s.chars()
        invariant
            out@ == it.seq().take(it.index()),
    {
        out.push(c);
        assert(it.seq().take(it.index() + 1) =~= it.seq().take(it.index()).push(c));
    }
    assert(out@ =~= s@);
    out
}

pub open spec fn not_slash() -> spec_fn(char) -> bool {
    |c: char| c != '/'
}

/// What follows the last `/` of a path; the whole path when it has none.
pub open spec fn basename(p: Seq<char>) -> Seq<char> {
    p.skip(p.len() - trailing(p, not_slash()))
}

/// The file name of a path.
pub fn file_name(path: &str) -> (r: String)
    ensures
        r@ == basename(path@),
{
    let cs = chars_of(path);
    let mut j = cs.len();
    while j > 0 && cs[j - 1] != '/'
        invariant
            j <= cs@.len(),
            forall|k: int| j <= k < cs@.len() ==> not_slash()(#[trigger] cs@[k]),
        decreases j,
    {
        j = j - 1;
    }
    proof {
        lemma_trailing(cs@, not_slash(), j as int);
    }
    let r = string_of(&cs, j, cs.len());
    assert(r@ =~= basename(path@));
    r
}

/// The decimal digit `d`.
pub open spec fn digit(d: nat) -> char {
    (48 + d) as char
}

/// The decimal digits of `n`, most significant first, without leading zeros.
pub open spec fn digits(n: nat) -> Seq<char>
    decreases n,
{
    if n < 10 {
        seq![digit(n)]
    } else {
        digits(n / 10).push(digit(n % 10))
    }
}

/// `v` written in decimal, with a `-` before a negative number.
pub open spec fn decimal(v: int) -> Seq<char> {
    if v < 0 {
        seq!['-'] + digits((-v) as nat)
    } else {
        digits(v as nat)
    }
}

fn push_digits(s: &mut String, n: u32)
    ensures
        final(s)@ == old(s)@ + digits(n as nat),
    decreases n,
{
    if n >= 10 {
        push_digits(s, n / 10);
    }
    let d: u32 = n % 10;
    let c = if d == 0 {
        '0'
    } else if d == 1 {
        '1'
    } else if d == 2 {
        '2'
    } else if d == 3 {
        '3'
    } else if d == 4 {
        '4'
    } else if d == 5 {
        '5'
    } else if d == 6 {
        '6'
    } else if d == 7 {
        '7'
    } else if d == 8 {
        '8'
    } else {
        '9'
    };
    assert(c == digit(d as nat));
    s.push(c);
    if n >= 10 {
        assert(s@ =~= old(s)@ + digits(n as nat));
    } else {
        assert(s@ =~= old(s)@ + digits(n as nat));
    }
}

/// Append `v` in decimal.
fn push_decimal(s: &mut String, v: i32)
    ensures
        final(s)@ == old(s)@ + decimal(v as int),
{
    if v < 0 {
        s.push('-');
        let m: u32 = (0 - (v as i64)) as u32;
        push_digits(s, m);
        assert(s@ =~= old(s)@ + decimal(v as int));
    } else {
        push_digits(s, v as u32);
    }
}

/// Append the characters of `t`.
fn push_all(s: &mut String, t: &Vec<char>)
    ensures
        final(s)@ == old(s)@ + t@,
{
    let mut i: usize = 0;
    while i < t.len()
        invariant
            i <= t@.len(),
            s@ == old(s)@ + t@.take(i as int),
        decreases t@.len() - i,
    {
        s.push(t[i]);
        assert(t@.take(i + 1) =~= t@.take(i as int).push(t@[i as int]));
        i = i + 1;
    }
    assert(t@.take(t@.len() as int) =~= t@);
}

/// The name a mesh dropped on cell `(x, y)` gets: its file name, then the
/// cell, as in `bunny.obj (3,-1)`.
pub open spec fn dropped_name(path: Seq<char>, x: i32, y: i32) -> Seq<char> {
    basename(path) + seq![' ', '('] + decimal(x as int) + seq![','] + decimal(y as int) + seq![')']
}

/// The name of a mesh node dropped at cell `(x, y)`.
pub fn mesh_node_name(path: &str, x: i32, y: i32) -> (r: String)
    ensures
        r@ == dropped_name(path@, x, y),
{
    let mut s = file_name(path);
    s.push(' ');
    s.push('(');
    push_decimal(&mut s, x);
    s.push(',');
    push_decimal(&mut s, y);
    s.push(')');
    assert(s@ =~= dropped_name(path@, x, y));
    s
}

/// The scene tree's label for a node: tilemaps and meshes are marked.
pub open spec fn label(n: Node) -> Seq<char> {
    if n.tilemap is Some {
        seq!['[', 'm', 'a', 'p', ']', ' '] + n.name@
    } else if n.mesh is Some {
        seq!['[', 'm', 'e', 's', 'h', ']', ' '] + n.name@
    } else {
        n.name@
    }
}

/// The label of a node in the scene tree.
pub fn node_label(n: &Node) -> (r: String)
    ensures
        r@ == label(*n),
{
    let name = chars_of(n.name.as_str());
    let mut s = String::new();
    if n.tilemap.is_some() {
        s.push('[');
        s.push('m');
        s.push('a');
        s.push('p');
        s.push(']');
        s.push(' ');
    } else if n.mesh.is_some() {
        s.push('[');
        s.push('m');
        s.push('e');
        s.push('s');
        s.push('h');
        s.push(']');
        s.push(' ');
    }
    push_all(&mut s, &name);
    assert(s@ =~= label(*n));
    s
}

/// The UTF-8 bytes of `.obj`.
pub open spec fn obj_suffix() -> Seq<u8> {
    seq![46u8, 111u8, 98u8, 106u8]
}

/// Whether a path names a mesh file: it ends in `.obj`.
pub open spec fn is_obj(bytes: Seq<u8>) -> bool {
    bytes.len() >= 4 && bytes.skip(bytes.len() - 4) == obj_suffix()
}

/// Whether an asset path is offered in the mesh palette.
pub fn is_obj_path(path: &str) -> (r: bool)
    ensures
        r == is_obj(path.spec_bytes()),
{
    let b = path.as_bytes();
    let n = b.len();
    if n < 4 {
        return false;
    }
    let r = b[n - 4] == 46u8 && b[n - 3] == 111u8 && b[n - 2] == 98u8 && b[n - 1] == 106u8;
    assert(r == (b@.skip(n - 4) =~= obj_suffix()));
    r
}

/// The position of the ground: the first node with a tilemap, or the end
/// of the node list when there is none yet.
pub open spec fn ground_index(sc: Scene) -> nat {
    first_index(sc.nodes@, crate::scene::has_tilemap())
}

/// The cells of the ground; none when there is no ground yet.
pub open spec fn ground_cells(sc: Scene) -> Seq<Cell> {
    if ground_index(sc) < sc.nodes@.len() {
        sc.nodes@[ground_index(sc) as int].tilemap->0.cells@
    } else {
        Seq::empty()
    }
}

/// A freshly made ground node holding `cells`.
pub open spec fn is_ground_with(n: Node, cells: Seq<Cell>) -> bool {
    &&& n.name@ == crate::scene::ground_name()
    &&& n.transform == crate::scene::identity_transform()
    &&& n.mesh is None
    &&& n.components@.len() == 0
    &&& n.children@.len() == 0
    &&& n.tilemap matches Some(t) && t.tileset@ == crate::scene::town_tileset() && t.tile_size == [
        crate::scene::ONE_BITS,
        crate::scene::ONE_BITS,
    ] && t.cells@ == cells
}

/// Scene `b` is scene `a` with the ground's cells replaced by `cells`; when
/// `a` has no ground, `b` has a new one appended, holding `cells`.
pub open spec fn ground_set(a: Scene, b: Scene, cells: Seq<Cell>) -> bool {
    let g = ground_index(a);
    if g < a.nodes@.len() {
        scene_with_cells(a, b, g as int, cells)
    } else {
        &&& b.name == a.name
        &&& b.nodes@.len() == a.nodes@.len() + 1
        &&& forall|k: int| 0 <= k < a.nodes@.len() ==> b.nodes@[k] == a.nodes@[k]
        &&& is_ground_with(b.nodes@[g as int], cells)
    }
}

/// Paint `tile_id` at `(x, y)` on the ground, making the ground first if the
/// scene has none.
pub fn paint_ground(sc: &mut Scene, x: i32, y: i32, tile_id: u32)
    ensures
        ground_set(*old(sc), *final(sc), painted(ground_cells(*old(sc)), x, y, tile_id)),
{
    let idx = ensure_ground(sc);
    let ghost mid = *sc;
    proof {
        lemma_first_index_bounds(sc.nodes@, crate::scene::has_tilemap());
        lemma_first_index_bounds(old(sc).nodes@, crate::scene::has_tilemap());
    }
    paint_tile(sc, idx, x, y, tile_id);
    proof {
        if ground_index(*old(sc)) >= old(sc).nodes@.len() {
            assert(is_new_ground(mid.nodes@[idx as int]));
            assert(mid.nodes@[idx as int].tilemap->0.cells@ =~= Seq::<Cell>::empty());
        }
    }
}

/// Erase the cells at `(x, y)` from the ground, making the ground first if
/// the scene has none.
pub fn erase_ground(sc: &mut Scene, x: i32, y: i32)
    ensures
        ground_set(*old(sc), *final(sc), erased(ground_cells(*old(sc)), x, y)),
{
    let idx = ensure_ground(sc);
    let ghost mid = *sc;
    proof {
        lemma_first_index_bounds(sc.nodes@, crate::scene::has_tilemap());
        lemma_first_index_bounds(old(sc).nodes@, crate::scene::has_tilemap());
    }
    erase_tile(sc, idx, x, y);
    proof {
        if ground_index(*old(sc)) >= old(sc).nodes@.len() {
            assert(is_new_ground(mid.nodes@[idx as int]));
            assert(mid.nodes@[idx as int].tilemap->0.cells@ =~= Seq::<Cell>::empty());
        }
    }
}

/// What the pointer did on the viewport this frame.
#[derive(Clone, Copy, Debug)]
pub struct Stroke {
    /// A primary drag started, or a primary click.
    pub paint_start: bool,
    /// A secondary drag started, or a secondary click.
    pub erase_start: bool,
    /// The primary button is dragging on the viewport, or clicked.
    pub painting: bool,
    /// The secondary button clicked, or is dragging on the viewport.
    pub erasing: bool,
    /// The ground cell under the pointer, when the pointer is on the viewport.
    pub cell: Option<(i32, i32)>,
}

/// A brush acts when a tile is chosen and nothing is being dragged in.
pub open spec fn brush_active(brush: Option<u32>, payload_in_flight: bool) -> bool {
    !payload_in_flight && brush is Some
}

/// A stroke that starts records the scene for undo, once, before it edits.
pub open spec fn stroke_records(brush: Option<u32>, payload_in_flight: bool, s: Stroke) -> bool {
    brush_active(brush, payload_in_flight) && (s.paint_start || s.erase_start)
}

/// A stroke edits the cell under the pointer while a button is on it.
pub open spec fn stroke_edits(brush: Option<u32>, payload_in_flight: bool, s: Stroke) -> bool {
    brush_active(brush, payload_in_flight) && (s.painting || s.erasing) && s.cell is Some
}

/// The ground cells after a stroke: erasing wins over painting.
pub open spec fn stroked_cells(cells: Seq<Cell>, brush: u32, s: Stroke) -> Seq<Cell> {
    let (x, y) = s.cell->0;
    if s.erasing {
        erased(cells, x, y)
    } else {
        painted(cells, x, y, brush)
    }
}

/// One frame of the tile brush on the viewport.
pub fn apply_brush(
    sc: &mut Scene,
    undo: &mut Vec<Scene>,
    brush: Option<u32>,
    payload_in_flight: bool,
    s: Stroke,
)
    ensures
        stroke_records(brush, payload_in_flight, s) ==> final(undo)@ == recorded(
            old(undo)@,
            final(undo)@.last(),
        ) && same_scene(*old(sc), final(undo)@.last()),
        !stroke_records(brush, payload_in_flight, s) ==> final(undo)@ == old(undo)@,
        stroke_edits(brush, payload_in_flight, s) ==> ground_set(
            *old(sc),
            *final(sc),
            stroked_cells(ground_cells(*old(sc)), brush->0, s),
        ),
        !stroke_edits(brush, payload_in_flight, s) ==> *final(sc) == *old(sc),
{
    if payload_in_flight {
        return;
    }
    let b = match brush {
        Some(b) => b,
        None => return,
    };
    if s.paint_start || s.erase_start {
        push_undo_helper(undo, sc);
    }
    if s.painting || s.erasing {
        if let Some((x, y)) = s.cell {
            if s.erasing {
                erase_ground(sc, x, y);
            } else {
                paint_ground(sc, x, y, b);
            }
        }
    }
}

/// What can be dragged from the palette onto the viewport.
pub enum DragPayload {
    /// A mesh file, by path.
    Mesh(String),
    /// A tile of the tileset, by id.
    Tile(u32),
}

/// A node made for a mesh dropped at cell `(x, y)`: named after the file and
/// the cell, placed at `translation`, unrotated and unscaled, with nothing
/// but the mesh.
pub open spec fn is_dropped_mesh(n: Node, path: Seq<char>, x: i32, y: i32, translation: [u32; 3]) -> bool {
    &&& n.name@ == dropped_name(path, x, y)
    &&& n.transform.translation == translation
    &&& n.transform.rotation == crate::scene::identity_transform().rotation
    &&& n.transform.scale == crate::scene::identity_transform().scale
    &&& n.mesh matches Some(m) && m.path@ == path
    &&& n.tilemap is None
    &&& n.components@.len() == 0
    &&& n.children@.len() == 0
}

/// A payload released over cell `(x, y)`. The scene is recorded for undo;
/// a mesh becomes a new node at the cell (`translation` holds the `f32` bits
/// of `(x, 0, y)`), and a tile is painted on the ground.
pub fn drop_payload(
    sc: &mut Scene,
    undo: &mut Vec<Scene>,
    payload: DragPayload,
    x: i32,
    y: i32,
    translation: [u32; 3],
)
    ensures
        final(undo)@ == recorded(old(undo)@, final(undo)@.last()),
        same_scene(*old(sc), final(undo)@.last()),
        payload matches DragPayload::Mesh(p) ==> {
            &&& final(sc).name == old(sc).name
            &&& final(sc).nodes@.len() == old(sc).nodes@.len() + 1
            &&& forall|k: int| 0 <= k < old(sc).nodes@.len() ==> final(sc).nodes@[k] == old(sc).nodes@[k]
            &&& is_dropped_mesh(final(sc).nodes@.last(), p@, x, y, translation)
        },
        payload matches DragPayload::Tile(t) ==> ground_set(
            *old(sc),
            *final(sc),
            painted(ground_cells(*old(sc)), x, y, t),
        ),
{
    push_undo_helper(undo, sc);
    match payload {
        DragPayload::Mesh(path) => {
            let name = mesh_node_name(path.as_str(), x, y);
            let id = Transform::identity();
            sc.nodes.push(
                Node {
                    name,
                    transform: Transform { translation, rotation: id.rotation, scale: id.scale },
                    mesh: Some(MeshRef { path }),
                    tilemap: None,
                    components: Vec::new(),
                    children: Vec::new(),
                },
            );
        },
        DragPayload::Tile(t) => {
            paint_ground(sc, x, y, t);
        },
    }
}

/// Whether the mesh at `path` still has to be loaded: it is not cached.
pub open spec fn needs_load(cached: Seq<Seq<char>>, path: Seq<char>) -> bool {
    !cached.contains(path)
}

/// The cached paths after a node's mesh at `path` was looked up, its load
/// (made only when it was needed) having succeeded or not: a successful load
/// is cached, a failed one is not, and a cached path stays as it is.
pub open spec fn cached_after(cached: Seq<Seq<char>>, path: Seq<char>, load_ok: bool) -> Seq<
    Seq<char>,
> {
    if needs_load(cached, path) && load_ok {
        cached.push(path)
    } else {
        cached
    }
}

/// Whether the mesh at `path` has to be loaded before it can be drawn. A
/// cached path is never loaded again.
pub fn must_load(cached: &Vec<String>, path: &String) -> (r: bool)
    ensures
        r == needs_load(crate::scene::strs(cached@), path@),
{
    match crate::scene::mesh_index(cached, path) {
        Some(i) => {
            assert(crate::scene::strs(cached@)[i as int] == path@);
            false
        },
        None => {
            assert(!crate::scene::strs(cached@).contains(path@)) by {
                if crate::scene::strs(cached@).contains(path@) {
                    let k = choose|k: int|
                        0 <= k < cached@.len() && crate::scene::strs(cached@)[k] == path@;
                    assert(cached@[k]@ == path@);
                }
            }
            true
        },
    }
}

/// Record the outcome of looking up a node's mesh: `load_ok` says whether
/// the load that `must_load` asked for succeeded (it is not read when the
/// path was cached already). The mesh is drawn exactly when its path is
/// cached afterwards.
pub fn cache_step(cached: &mut Vec<String>, path: &String, load_ok: bool) -> (draw: bool)
    ensures
        crate::scene::strs(final(cached)@) == cached_after(
            crate::scene::strs(old(cached)@),
            path@,
            load_ok,
        ),
        draw == crate::scene::strs(final(cached)@).contains(path@),
{
    let need = must_load(cached, path);
    if need && load_ok {
        cached.push(path.clone());
        assert(crate::scene::strs(cached@) =~= crate::scene::strs(old(cached)@).push(path@));
        assert(crate::scene::strs(cached@)[cached@.len() - 1] == path@);
        true
    } else {
        !need
    }
}

/// A cached path is never reloaded: once a load has succeeded (or the path
/// was cached already) the next node with that mesh needs no load and is
/// drawn; a failed load leaves the cache as it was; and nothing ever leaves
/// the cache.
pub proof fn law_cached_meshes_are_not_reloaded(cached: Seq<Seq<char>>, path: Seq<char>, load_ok: bool)
    ensures
        (load_ok || !needs_load(cached, path)) ==> !needs_load(cached_after(cached, path, load_ok), path),
        !load_ok ==> cached_after(cached, path, load_ok) == cached,
        forall|p: Seq<char>| cached.contains(p) ==> cached_after(cached, path, load_ok).contains(p),
{
    let after = cached_after(cached, path, load_ok);
    if needs_load(cached, path) && load_ok {
        assert(after[cached.len() as int] == path);
        assert forall|p: Seq<char>| cached.contains(p) implies after.contains(p) by {
            let k = choose|k: int| 0 <= k < cached.len() && cached[k] == p;
            assert(after[k] == p);
        }
    }
}

/// One thing the editor's viewport draws.
#[derive(Clone, Copy, Debug)]
pub enum ViewportItem {
    /// The quad, at `(x * tile_size[0], 0, y * tile_size[1])` in world space.
    Tile { cell: Cell, tile_size: [u32; 2] },
    /// The mesh of top-level node `node`, with that node's transform.
    Mesh { node: usize },
}

/// What the viewport draws of top-level node `k`: its tiles, then its mesh
/// if it has one and that mesh is loaded (`drawn`).
pub open spec fn node_items(n: Node, k: nat, drawn: bool) -> Seq<ViewportItem> {
    let tiles = match n.tilemap {
        Some(t) => Seq::new(
            t.cells@.len(),
            |i: int| ViewportItem::Tile { cell: t.cells@[i], tile_size: t.tile_size },
        ),
        None => Seq::empty(),
    };
    if n.mesh is Some && drawn {
        tiles.push(ViewportItem::Mesh { node: k as usize })
    } else {
        tiles
    }
}

/// What the viewport draws of the first `k` top-level nodes.
pub open spec fn items_upto(ns: Seq<Node>, drawn: Seq<bool>, k: nat) -> Seq<ViewportItem>
    decreases k,
{
    if k == 0 {
        Seq::empty()
    } else {
        items_upto(ns, drawn, (k - 1) as nat) + node_items(ns[k - 1], (k - 1) as nat, drawn[k - 1])
    }
}

/// Everything the editor's viewport draws of a scene, in order: for each
/// top-level node, its tiles, then its mesh when `drawn` says the mesh is
/// loaded (the result of `cache_step` for that node). Children are not drawn.
pub fn viewport_items(sc: &Scene, drawn: &Vec<bool>) -> (r: Vec<ViewportItem>)
    requires
        drawn@.len() == sc.nodes@.len(),
    ensures
        r@ == items_upto(sc.nodes@, drawn@, sc.nodes@.len()),
{
    let mut out: Vec<ViewportItem> = Vec::new();
    let mut k: usize = 0;
    while k < sc.nodes.len()
        invariant
            k <= sc.nodes@.len(),
            drawn@.len() == sc.nodes@.len(),
            out@ == items_upto(sc.nodes@, drawn@, k as nat),
        decreases sc.nodes@.len() - k,
    {
        let n = &sc.nodes[k];
        let ghost before = out@;
        let ghost own = node_items(*n, k as nat, drawn@[k as int]);
        if let Some(t) = &n.tilemap {
            let mut i: usize = 0;
            while i < t.cells.len()
                invariant
                    i <= t.cells@.len(),
                    out@ == before + Seq::new(
                        i as nat,
                        |j: int| ViewportItem::Tile { cell: t.cells@[j], tile_size: t.tile_size },
                    ),
                decreases t.cells@.len() - i,
            {
                out.push(ViewportItem::Tile { cell: t.cells[i], tile_size: t.tile_size });
                assert(out@ =~= before + Seq::new(
                    (i + 1) as nat,
                    |j: int| ViewportItem::Tile { cell: t.cells@[j], tile_size: t.tile_size },
                ));
                i = i + 1;
            }
        }
        if n.mesh.is_some() && drawn[k] {
            out.push(ViewportItem::Mesh { node: k });
        }
        assert(out@ =~= before + own);
        k = k + 1;
    }
    out
}

/// How many items the viewport draws for a node: one per painted cell, and
/// one more for its mesh when the mesh is drawn.
pub open spec fn item_count(n: Node, drawn: bool) -> nat {
    (match n.tilemap {
        Some(t) => t.cells@.len(),
        None => 0,
    }) + (if n.mesh is Some && drawn {
        1nat
    } else {
        0nat
    })
}

/// How many items the first `k` top-level nodes account for.
pub open spec fn items_before(ns: Seq<Node>, drawn: Seq<bool>, k: nat) -> nat
    decreases k,
{
    if k == 0 {
        0
    } else {
        items_before(ns, drawn, (k - 1) as nat) + item_count(ns[k - 1], drawn[k - 1])
    }
}

/// Node `i`'s items are where they belong in `items`: from position
/// `items_before(.., i)` on, one tile per painted cell carrying that cell (in
/// cell order) and the tilemap's tile size, then the node's mesh if it is
/// drawn.
pub open spec fn node_drawn_at(items: Seq<ViewportItem>, ns: Seq<Node>, drawn: Seq<bool>, i: int) -> bool {
    let start = items_before(ns, drawn, i as nat) as int;
    let n = ns[i];
    let cells = match n.tilemap {
        Some(t) => t.cells@.len() as int,
        None => 0int,
    };
    &&& forall|j: int|
        0 <= j < cells ==> items[start + j] == (ViewportItem::Tile {
            cell: #[trigger] n.tilemap->0.cells@[j],
            tile_size: n.tilemap->0.tile_size,
        })
    &&& (n.mesh is Some && drawn[i]) ==> items[start + cells] == (ViewportItem::Mesh {
        node: i as usize,
    })
}

proof fn lemma_items_upto(ns: Seq<Node>, drawn: Seq<bool>, k: nat)
    requires
        k <= ns.len(),
        k <= drawn.len(),
    ensures
        items_upto(ns, drawn, k).len() == items_before(ns, drawn, k),
        forall|i: int| 0 <= i < k ==> node_drawn_at(items_upto(ns, drawn, k), ns, drawn, i),
    decreases k,
{
    if k > 0 {
        let k1 = (k - 1) as nat;
        lemma_items_upto(ns, drawn, k1);
        let prev = items_upto(ns, drawn, k1);
        let own = node_items(ns[k1 as int], k1, drawn[k1 as int]);
        let all = items_upto(ns, drawn, k);
        assert(all == prev + own);
        assert forall|i: int| 0 <= i < k implies node_drawn_at(all, ns, drawn, i) by {
            let start = items_before(ns, drawn, i as nat) as int;
            let n = ns[i];
            if i < k1 {
                assert(node_drawn_at(prev, ns, drawn, i));
                lemma_items_before_monotone(ns, drawn, (i + 1) as nat, k1);
                let cells = match n.tilemap {
                    Some(t) => t.cells@.len() as int,
                    None => 0int,
                };
                assert forall|j: int| 0 <= j < cells implies all[start + j] == (ViewportItem::Tile {
                    cell: #[trigger] n.tilemap->0.cells@[j],
                    tile_size: n.tilemap->0.tile_size,
                }) by {
                    assert(all[start + j] == prev[start + j]);
                }
                if n.mesh is Some && drawn[i] {
                    assert(all[start + cells] == prev[start + cells]);
                }
            } else {
                assert(i == k1);
                assert forall|j: int|
                    0 <= j < (match n.tilemap {
                        Some(t) => t.cells@.len() as int,
                        None => 0int,
                    }) implies all[start + j] == (ViewportItem::Tile {
                    cell: #[trigger] n.tilemap->0.cells@[j],
                    tile_size: n.tilemap->0.tile_size,
                }) by {
                    assert(all[start + j] == own[j]);
                }
                let cells = match n.tilemap {
                    Some(t) => t.cells@.len() as int,
                    None => 0int,
                };
                if n.mesh is Some && drawn[i] {
                    assert(all[start + cells] == own[cells]);
                }
            }
        }
    }
}

proof fn lemma_items_before_monotone(ns: Seq<Node>, drawn: Seq<bool>, a: nat, b: nat)
    requires
        a <= b,
    ensures
        items_before(ns, drawn, a) <= items_before(ns, drawn, b),
    decreases b,
{
    if a < b {
        lemma_items_before_monotone(ns, drawn, a, (b - 1) as nat);
    }
}

/// The viewport draws every painted cell of every top-level node where it
/// is painted, and each drawn mesh with its own node: node `i`'s items start
/// after those of the nodes before it, its `j`-th tile carries its `j`-th
/// cell, and nothing else is drawn.
pub proof fn law_viewport_draws_each_cell_and_mesh(ns: Seq<Node>, drawn: Seq<bool>)
    requires
        drawn.len() == ns.len(),
    ensures
        items_upto(ns, drawn, ns.len()).len() == items_before(ns, drawn, ns.len()),
        forall|i: int|
            0 <= i < ns.len() ==> node_drawn_at(items_upto(ns, drawn, ns.len()), ns, drawn, i),
{
    lemma_items_upto(ns, drawn, ns.len());
}

/// A scene has at most one ground that strokes go to: after the ground's
/// cells are set, the next stroke finds the same ground (the one that was
/// there, or the one just made) and reads back exactly the cells written.
pub proof fn law_ground_is_found_again(a: Scene, b: Scene, cells: Seq<Cell>)
    requires
        ground_set(a, b, cells),
    ensures
        ground_index(b) == (if ground_index(a) < a.nodes@.len() {
            ground_index(a)
        } else {
            a.nodes@.len()
        }),
        ground_index(b) < b.nodes@.len(),
        ground_cells(b) == cells,
{
    let g = ground_index(a);
    lemma_first_index_bounds(a.nodes@, crate::scene::has_tilemap());
    assert forall|k: int| 0 <= k < g implies !crate::scene::has_tilemap()(#[trigger] b.nodes@[k]) by {
        assert(b.nodes@[k] == a.nodes@[k]);
        assert(!crate::scene::has_tilemap()(a.nodes@[k]));
    }
    crate::text::lemma_first_index(b.nodes@, crate::scene::has_tilemap(), g as int);
}

} // verus!
