//! Flattening the models of an OBJ file into one indexed mesh.
//!
//! A model that carries one normal per position is copied through and its
//! indices shifted past the vertices already placed. A model without normals
//! is expanded to unindexed triangles, each corner its own vertex, so that
//! every face can carry its own flat normal. This module plans where each
//! output vertex comes from and what the index buffer is; the positions and
//! normals themselves are filled in from the plan.
use vstd::prelude::*;

verus! {

/// What the loader reads of one model.
pub struct ModelShape {
    /// How many vertex positions the model has.
    pub positions: usize,
    /// Whether it carries exactly one normal per position.
    pub has_normals: bool,
    pub indices: Vec<u32>,
}

/// Where one output vertex comes from.
#[derive(Clone, Copy, PartialEq, Eq, Debug, Structural)]
pub enum VertexSource {
    /// Position and normal `index` of model `model`.
    Shared { model: usize, index: usize },
    /// Position `position` of model `model`, with the flat normal of the
    /// model's triangle number `triangle`.
    Corner { model: usize, position: usize, triangle: usize },
}

/// The flattened mesh: a source for every vertex, and the index buffer.
pub struct MeshPlan {
    pub sources: Vec<VertexSource>,
    pub indices: Vec<u32>,
}

/// How many vertices a model contributes.
pub open spec fn model_vertices(m: ModelShape) -> nat {
    if m.has_normals {
        m.positions as nat
    } else {
        (3 * (m.indices@.len() / 3)) as nat
    }
}

/// How many vertices the first `n` models contribute.
pub open spec fn vertices_before(ms: Seq<ModelShape>, n: int) -> nat
    decreases n,
{
    if n <= 0 {
        0
    } else {
        vertices_before(ms, n - 1) + model_vertices(ms[n - 1])
    }
}

/// The sources of model number `mi`'s vertices.
pub open spec fn model_sources(mi: int, m: ModelShape) -> Seq<VertexSource> {
    if m.has_normals {
        Seq::new(m.positions as nat, |i: int| VertexSource::Shared { model: mi as usize, index: i as usize })
    } else {
        Seq::new(
            model_vertices(m),
            |v: int|
                VertexSource::Corner {
                    model: mi as usize,
                    position: m.indices@[v] as usize,
                    triangle: (v / 3) as usize,
                },
        )
    }
}

/// The indices of a model whose vertices start at `offset`.
pub open spec fn model_indices(offset: nat, m: ModelShape) -> Seq<u32> {
    if m.has_normals {
        Seq::new(m.indices@.len(), |k: int| (offset + m.indices@[k]) as u32)
    } else {
        Seq::new(model_vertices(m), |v: int| (offset + v) as u32)
    }
}

/// The vertex sources of the first `n` models.
pub open spec fn plan_sources(ms: Seq<ModelShape>, n: int) -> Seq<VertexSource>
    decreases n,
{
    if n <= 0 {
        Seq::empty()
    } else {
        plan_sources(ms, n - 1) + model_sources(n - 1, ms[n - 1])
    }
}

/// The index buffer of the first `n` models.
pub open spec fn plan_indices(ms: Seq<ModelShape>, n: int) -> Seq<u32>
    decreases n,
{
    if n <= 0 {
        Seq::empty()
    } else {
        plan_indices(ms, n - 1) + model_indices(vertices_before(ms, n - 1), ms[n - 1])
    }
}

/// Every index fits: the vertex count, and each shared index shifted past
/// the vertices before it, stay within `u32`; and every triangle corner of a
/// model without normals names one of its positions.
pub open spec fn plan_fits(ms: Seq<ModelShape>) -> bool {
    &&& vertices_before(ms, ms.len() as int) <= u32::MAX
    &&& forall|mi: int, k: int|
        #![trigger ms[mi].indices@[k]]
        0 <= mi < ms.len() && 0 <= k < ms[mi].indices@.len() ==> (ms[mi].has_normals
            ==> vertices_before(ms, mi) + ms[mi].indices@[k] <= u32::MAX) && (!ms[mi].has_normals
            && k < model_vertices(ms[mi]) ==> ms[mi].indices@[k] < ms[mi].positions)
}

proof fn lemma_vertices_before_monotone(ms: Seq<ModelShape>, a: int, b: int)
    requires
        0 <= a <= b,
    ensures
        vertices_before(ms, a) <= vertices_before(ms, b),
        plan_sources(ms, b).len() == vertices_before(ms, b),
    decreases b,
{
    if b > 0 {
        if a < b {
            lemma_vertices_before_monotone(ms, a, b - 1);
        } else {
            lemma_vertices_before_monotone(ms, b - 1, b - 1);
        }
    }
}

/// Whether the models can be flattened (`plan_fits`): the check a loader
/// makes before it plans.
pub fn mesh_fits(models: &Vec<ModelShape>) -> (r: bool)
    ensures
        r == plan_fits(models@),
{
    let ghost ms = models@;
    let mut before: u64 = 0;
    let mut mi: usize = 0;
    while mi < models.len()
        invariant
            ms == models@,
            mi <= ms.len(),
            before == vertices_before(ms, mi as int),
            before <= u32::MAX,
            forall|j: int, k: int|
                #![trigger ms[j].indices@[k]]
                0 <= j < mi && 0 <= k < ms[j].indices@.len() ==> (ms[j].has_normals
                    ==> vertices_before(ms, j) + ms[j].indices@[k] <= u32::MAX) && (
                !ms[j].has_normals && k < model_vertices(ms[j]) ==> ms[j].indices@[k]
                    < ms[j].positions),
        decreases ms.len() - mi,
    {
        let m = &models[mi];
        proof {
            lemma_vertices_before_monotone(ms, mi as int + 1, ms.len() as int);
        }
        let count: u64;
        if m.has_normals {
            let mut k: usize = 0;
            while k < m.indices.len()
                invariant
                    ms == models@,
                    m == &ms[mi as int],
                    mi < ms.len(),
                    m.has_normals,
                    before == vertices_before(ms, mi as int),
                    before <= u32::MAX,
                    k <= m.indices@.len(),
                    forall|kk: int| 0 <= kk < k ==> before + #[trigger] m.indices@[kk] <= u32::MAX,
                decreases m.indices@.len() - k,
            {
                if before + m.indices[k] as u64 > u32::MAX as u64 {
                    proof {
                        let (j, kk) = (mi as int, k as int);
                        assert(ms[j].indices@[kk] == m.indices@[kk]);
                        assert(!(0 <= j < ms.len() && 0 <= kk < ms[j].indices@.len() ==> (
                        ms[j].has_normals ==> vertices_before(ms, j) + ms[j].indices@[kk]
                            <= u32::MAX)));
                    }
                    return false;
                }
                k = k + 1;
            }
            if m.positions as u64 > u32::MAX as u64 - before {
                proof {
                    lemma_vertices_before_monotone(ms, mi as int + 1, ms.len() as int);
                }
                return false;
            }
            count = m.positions as u64;
        } else {
            let corners = 3 * (m.indices.len() / 3);
            let mut k: usize = 0;
            while k < corners
                invariant
                    ms == models@,
                    m == &ms[mi as int],
                    mi < ms.len(),
                    !m.has_normals,
                    corners == model_vertices(*m),
                    corners <= m.indices@.len(),
                    k <= corners,
                    forall|kk: int| 0 <= kk < k ==> #[trigger] m.indices@[kk] < m.positions,
                decreases corners - k,
            {
                if m.indices[k] as usize >= m.positions {
                    proof {
                        let (j, kk) = (mi as int, k as int);
                        assert(ms[j].indices@[kk] == m.indices@[kk]);
                        assert(!(0 <= j < ms.len() && 0 <= kk < ms[j].indices@.len() ==> (
                        !ms[j].has_normals && kk < model_vertices(ms[j]) ==> ms[j].indices@[kk]
                            < ms[j].positions)));
                    }
                    return false;
                }
                k = k + 1;
            }
            if corners as u64 > u32::MAX as u64 - before {
                return false;
            }
            count = corners as u64;
        }
        before = before + count;
        mi = mi + 1;
    }
    true
}

/// Flatten the models into one mesh plan.
pub fn plan_mesh(models: &Vec<ModelShape>) -> (r: MeshPlan)
    requires
        plan_fits(models@),
    ensures
        r.sources@ == plan_sources(models@, models@.len() as int),
        r.indices@ == plan_indices(models@, models@.len() as int),
{
    let mut sources: Vec<VertexSource> = Vec::new();
    let mut indices: Vec<u32> = Vec::new();
    let mut mi: usize = 0;
    let ghost ms = models@;
    while mi < models.len()
        invariant
            ms == models@,
            plan_fits(ms),
            mi <= ms.len(),
            sources@ == plan_sources(ms, mi as int),
            indices@ == plan_indices(ms, mi as int),
        decreases ms.len() - mi,
    {
        let m = &models[mi];
        proof {
            lemma_vertices_before_monotone(ms, mi as int, mi + 1);
            lemma_vertices_before_monotone(ms, mi + 1, ms.len() as int);
        }
        let offset = sources.len();
        assert(offset == vertices_before(ms, mi as int));
        let ghost src0 = sources@;
        let ghost idx0 = indices@;
        if m.has_normals {
            let mut i: usize = 0;
            while i < m.positions
                invariant
                    i <= m.positions,
                    src0 == plan_sources(ms, mi as int),
                    m.has_normals,
                    sources@ == src0 + model_sources(mi as int, *m).take(i as int),
                decreases m.positions - i,
            {
                sources.push(VertexSource::Shared { model: mi, index: i });
                assert(sources@ =~= src0 + model_sources(mi as int, *m).take(i + 1));
                i = i + 1;
            }
            assert(model_sources(mi as int, *m).take(i as int) =~= model_sources(mi as int, *m));
            let mut k: usize = 0;
            while k < m.indices.len()
                invariant
                    k <= m.indices@.len(),
                    offset == vertices_before(ms, mi as int),
                    offset <= u32::MAX,
                    m == &ms[mi as int],
                    mi < ms.len(),
                    plan_fits(ms),
                    m.has_normals,
                    indices@ == idx0 + model_indices(offset as nat, *m).take(k as int),
                decreases m.indices@.len() - k,
            {
                let idx = m.indices[k];
                assert(ms[mi as int].indices@[k as int] == idx);
                indices.push(offset as u32 + idx);
                assert(indices@ =~= idx0 + model_indices(offset as nat, *m).take(k + 1));
                k = k + 1;
            }
            assert(model_indices(offset as nat, *m).take(k as int) =~= model_indices(
                offset as nat,
                *m,
            ));
        } else {
            let tris = m.indices.len() / 3;
            let mut v: usize = 0;
            while v < 3 * tris
                invariant
                    v <= 3 * tris,
                    tris == m.indices@.len() / 3,
                    offset == vertices_before(ms, mi as int),
                    offset + 3 * tris <= u32::MAX,
                    m == &ms[mi as int],
                    mi < ms.len(),
                    !m.has_normals,
                    sources@ == src0 + model_sources(mi as int, *m).take(v as int),
                    indices@ == idx0 + model_indices(offset as nat, *m).take(v as int),
                decreases 3 * tris - v,
            {
                let position = m.indices[v] as usize;
                sources.push(VertexSource::Corner { model: mi, position, triangle: v / 3 });
                indices.push((offset + v) as u32);
                assert(sources@ =~= src0 + model_sources(mi as int, *m).take(v + 1));
                assert(indices@ =~= idx0 + model_indices(offset as nat, *m).take(v + 1));
                v = v + 1;
            }
            assert(model_sources(mi as int, *m).take(v as int) =~= model_sources(mi as int, *m));
            assert(model_indices(offset as nat, *m).take(v as int) =~= model_indices(
                offset as nat,
                *m,
            ));
        }
        mi = mi + 1;
    }
    MeshPlan { sources, indices }
}

/// Every index of a model that carries normals names one of its positions,
/// as the indices of a well-formed OBJ model do.
pub open spec fn shared_indices_in_range(ms: Seq<ModelShape>) -> bool {
    forall|mi: int, k: int|
        #![trigger ms[mi].indices@[k]]
        0 <= mi < ms.len() && 0 <= k < ms[mi].indices@.len() && ms[mi].has_normals
            ==> ms[mi].indices@[k] < ms[mi].positions
}

proof fn lemma_indices_below(ms: Seq<ModelShape>, n: int)
    requires
        0 <= n <= ms.len(),
        plan_fits(ms),
        shared_indices_in_range(ms),
    ensures
        forall|k: int|
            0 <= k < plan_indices(ms, n).len() ==> #[trigger] plan_indices(ms, n)[k]
                < vertices_before(ms, n),
    decreases n,
{
    if n > 0 {
        lemma_indices_below(ms, n - 1);
        lemma_vertices_before_monotone(ms, n - 1, n);
        lemma_vertices_before_monotone(ms, n, ms.len() as int);
        let offset = vertices_before(ms, n - 1);
        let m = ms[n - 1];
        let prev = plan_indices(ms, n - 1);
        let here = model_indices(offset, m);
        assert(plan_indices(ms, n) == prev + here);
        assert forall|k: int| 0 <= k < here.len() implies #[trigger] here[k] < vertices_before(
            ms,
            n,
        ) by {
            if m.has_normals {
                assert(m.indices@[k] < m.positions);
                assert(offset + m.indices@[k] <= u32::MAX);
            }
        }
    }
}

/// Whether a vertex source names a model of `ms` and one of its positions.
pub open spec fn source_in_range(ms: Seq<ModelShape>, src: VertexSource) -> bool {
    match src {
        VertexSource::Shared { model, index } => model < ms.len() && index < ms[model as int].positions,
        VertexSource::Corner { model, position, triangle } => {
            &&& model < ms.len()
            &&& position < ms[model as int].positions
            &&& 3 * triangle + 2 < ms[model as int].indices@.len()
        },
    }
}

proof fn lemma_sources_in_range(ms: Seq<ModelShape>, n: int)
    requires
        0 <= n <= ms.len(),
        ms.len() <= usize::MAX,
        plan_fits(ms),
    ensures
        forall|v: int|
            0 <= v < plan_sources(ms, n).len() ==> source_in_range(
                ms,
                #[trigger] plan_sources(ms, n)[v],
            ),
    decreases n,
{
    if n > 0 {
        lemma_sources_in_range(ms, n - 1);
        let m = ms[n - 1];
        let prev = plan_sources(ms, n - 1);
        let here = model_sources(n - 1, m);
        assert(plan_sources(ms, n) == prev + here);
        assert forall|v: int| 0 <= v < here.len() implies source_in_range(ms, #[trigger] here[v]) by {
            assert(m.indices@.len() == m.indices.len());
            if !m.has_normals {
                assert(m.indices@[v] < m.positions);
                assert(3 * (v / 3) + 2 < m.indices@.len());
            }
        }
    }
}

/// Every vertex of the flattened mesh is read from a position that its
/// model has, and every flat normal from a whole triangle of that model.
pub proof fn law_sources_name_positions(ms: Seq<ModelShape>)
    requires
        ms.len() <= usize::MAX,
        plan_fits(ms),
    ensures
        forall|v: int|
            0 <= v < plan_sources(ms, ms.len() as int).len() ==> source_in_range(
                ms,
                #[trigger] plan_sources(ms, ms.len() as int)[v],
            ),
{
    lemma_sources_in_range(ms, ms.len() as int);
}

/// Every index of the flattened mesh names one of its vertices, whenever
/// the models' own indices name their positions.
pub proof fn law_indices_name_vertices(ms: Seq<ModelShape>)
    requires
        plan_fits(ms),
        shared_indices_in_range(ms),
    ensures
        plan_sources(ms, ms.len() as int).len() == vertices_before(ms, ms.len() as int),
        forall|k: int|
            0 <= k < plan_indices(ms, ms.len() as int).len() ==> #[trigger] plan_indices(
                ms,
                ms.len() as int,
            )[k] < plan_sources(ms, ms.len() as int).len(),
{
    lemma_vertices_before_monotone(ms, ms.len() as int, ms.len() as int);
    lemma_indices_below(ms, ms.len() as int);
}

/// How many indices a model contributes: its own, or one per corner of its
/// whole triangles when it carries no normals.
pub open spec fn index_count(m: ModelShape) -> nat {
    if m.has_normals {
        m.indices@.len()
    } else {
        model_vertices(m)
    }
}

/// How many indices the first `n` models contribute.
pub open spec fn indices_before(ms: Seq<ModelShape>, n: int) -> nat
    decreases n,
{
    if n <= 0 {
        0
    } else {
        indices_before(ms, n - 1) + index_count(ms[n - 1])
    }
}

/// The vertex that index `j` of model `k` must name: the model's shared
/// vertex at its own index `j`, or, without normals, the corner `j` of its
/// triangle `j / 3`, placed at the position its index `j` names.
pub open spec fn named_vertex(ms: Seq<ModelShape>, k: int, j: int) -> VertexSource {
    if ms[k].has_normals {
        VertexSource::Shared { model: k as usize, index: ms[k].indices@[j] as usize }
    } else {
        VertexSource::Corner {
            model: k as usize,
            position: ms[k].indices@[j] as usize,
            triangle: (j / 3) as usize,
        }
    }
}

/// Every index of the first `n` models' part of the plan names the vertex
/// it stands for.
pub open spec fn indices_name_their_vertices(ms: Seq<ModelShape>, n: int) -> bool {
    &&& plan_indices(ms, n).len() == indices_before(ms, n)
    &&& plan_sources(ms, n).len() == vertices_before(ms, n)
    &&& forall|k: int, j: int|
        0 <= k < n && 0 <= j < index_count(ms[k]) ==> {
            let i = indices_before(ms, k) + j;
            &&& (plan_indices(ms, n)[i] as int) < plan_sources(ms, n).len()
            &&& plan_sources(ms, n)[plan_indices(ms, n)[i] as int] == #[trigger] named_vertex(
                ms,
                k,
                j,
            )
        }
}

proof fn lemma_indices_before_monotone(ms: Seq<ModelShape>, a: int, b: int)
    requires
        0 <= a <= b,
    ensures
        indices_before(ms, a) <= indices_before(ms, b),
    decreases b,
{
    if a < b {
        lemma_indices_before_monotone(ms, a, b - 1);
    }
}

proof fn lemma_indices_name(ms: Seq<ModelShape>, n: int)
    requires
        0 <= n <= ms.len(),
        ms.len() <= usize::MAX,
        plan_fits(ms),
        shared_indices_in_range(ms),
    ensures
        indices_name_their_vertices(ms, n),
    decreases n,
{
    if n > 0 {
        let n1 = n - 1;
        lemma_indices_name(ms, n1);
        lemma_vertices_before_monotone(ms, n1, n);
        lemma_vertices_before_monotone(ms, n, ms.len() as int);
        lemma_vertices_before_monotone(ms, n, n);
        let m = ms[n1];
        let off = vertices_before(ms, n1);
        let pi0 = plan_indices(ms, n1);
        let ps0 = plan_sources(ms, n1);
        let here_i = model_indices(off, m);
        let here_s = model_sources(n1, m);
        let pi = plan_indices(ms, n);
        let ps = plan_sources(ms, n);
        assert(pi == pi0 + here_i);
        assert(ps == ps0 + here_s);
        assert forall|k: int, j: int| 0 <= k < n && 0 <= j < index_count(ms[k]) implies {
            let i = indices_before(ms, k) + j;
            &&& (pi[i] as int) < ps.len()
            &&& ps[pi[i] as int] == #[trigger] named_vertex(ms, k, j)
        } by {
            let i = indices_before(ms, k) + j;
            if k < n1 {
                assert(named_vertex(ms, k, j) == named_vertex(ms, k, j));
                lemma_indices_before_monotone(ms, k + 1, n1);
                assert(pi[i] == pi0[i]);
                assert(ps[pi0[i] as int] == ps0[pi0[i] as int]);
            } else {
                assert(k == n1);
                assert(pi[i] == here_i[j]);
                assert(m.indices@[j] == ms[k].indices@[j]);
                if m.has_normals {
                    assert(m.indices@[j] < m.positions);
                    assert(off + m.indices@[j] <= u32::MAX);
                    assert(ps[off + m.indices@[j]] == here_s[m.indices@[j] as int]);
                } else {
                    assert(m.indices@[j] < m.positions);
                    assert(ps[off + j] == here_s[j]);
                }
            }
        }
    }
}

/// Each index of the flattened mesh names the vertex it stands for: index
/// `j` of model `k` sits at position `indices_before(k) + j` of the index
/// buffer and names that model's own vertex (shared models) or the corner
/// vertex made for it (models without normals), never another model's.
pub proof fn law_indices_name_their_vertices(ms: Seq<ModelShape>)
    requires
        ms.len() <= usize::MAX,
        plan_fits(ms),
        shared_indices_in_range(ms),
    ensures
        indices_name_their_vertices(ms, ms.len() as int),
{
    lemma_indices_name(ms, ms.len() as int);
}

} // verus!
