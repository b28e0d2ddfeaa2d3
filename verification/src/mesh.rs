//! Triangle meshes: vertices, and indices that name three of them per
//! triangle. The order of the triangles is the order they are painted in.

use vstd::prelude::*;

use crate::arith::{ceil_div, div_ceil, least, lemma_ceil_div, most};

verus! {

/// A list of triangles over a list of vertices.
pub struct Mesh<V> {
    pub vertices: Vec<V>,
    pub indices: Vec<u32>,
}

/// Every index names one of `n` vertices.
pub open spec fn indices_below(indices: Seq<u32>, n: int) -> bool {
    forall|k: int| 0 <= k < indices.len() ==> (#[trigger] indices[k]) < n
}

/// `indices` moved on by `base`.
pub open spec fn shifted(indices: Seq<u32>, base: int) -> Seq<u32> {
    indices.map(|_k: int, i: u32| (i + base) as u32)
}

impl<V> Mesh<V> {
    /// The triangles of `other` begin with these.
    pub open spec fn begins(self, other: Mesh<V>) -> bool {
        &&& self.vertices.len() <= other.vertices.len()
        &&& self.indices.len() <= other.indices.len()
        &&& other.vertices@.take(self.vertices.len() as int) == self.vertices@
        &&& other.indices@.take(self.indices.len() as int) == self.indices@
    }

    /// The indices name vertices of the mesh, three for each triangle.
    pub open spec fn wf(&self) -> bool {
        &&& indices_below(self.indices@, self.vertices.len() as int)
        &&& self.indices.len() % 3 == 0
    }

    /// A mesh of nothing.
    pub fn new() -> (mesh: Self)
        ensures
            mesh.wf(),
            mesh.vertices@ == Seq::<V>::empty(),
            mesh.indices@ == Seq::<u32>::empty(),
    {
        Mesh { vertices: Vec::new(), indices: Vec::new() }
    }

    /// Drop all triangles and vertices.
    pub fn clear(&mut self)
        ensures
            final(self).wf(),
            final(self).vertices@ == Seq::<V>::empty(),
            final(self).indices@ == Seq::<u32>::empty(),
    {
        self.vertices.clear();
        self.indices.clear();
    }

    /// Add a vertex and return its number.
    pub fn vertex(&mut self, v: V) -> (index: u32)
        requires
            old(self).wf(),
            old(self).vertices.len() < u32::MAX,
        ensures
            final(self).wf(),
            index == old(self).vertices.len(),
            final(self).vertices@ == old(self).vertices@.push(v),
            final(self).indices == old(self).indices,
    {
        let index: u32 = self.vertices.len() as u32;
        self.vertices.push(v);
        index
    }

    /// Add a triangle of existing vertices.
    pub fn triangle(&mut self, a: u32, b: u32, c: u32)
        requires
            old(self).wf(),
            a < old(self).vertices.len(),
            b < old(self).vertices.len(),
            c < old(self).vertices.len(),
        ensures
            final(self).wf(),
            final(self).vertices == old(self).vertices,
            final(self).indices@ == old(self).indices@ + seq![a, b, c],
    {
        self.indices.push(a);
        self.indices.push(b);
        self.indices.push(c);
        assert(self.indices@ =~= old(self).indices@ + seq![a, b, c]);
    }
}

impl<V> Mesh<V> {
    /// Connect two rows of four vertices, the first of which is at `base`.
    pub fn ribbon(&mut self, base: u32)
        requires
            old(self).wf(),
            base + 8 <= old(self).vertices.len(),
            base + 8 <= u32::MAX,
        ensures
            final(self).wf(),
            final(self).vertices == old(self).vertices,
            final(self).indices@ == old(self).indices@ + ribbon_indices(base as int),
    {
        let ghost indices = self.indices@;
        let mut q: u32 = 0;
        assert(self.indices@ =~= indices + ribbon_indices(base as int).take(0));
        while q < 18
            invariant
                q <= 18,
                base + 8 <= self.vertices.len(),
                base + 8 <= u32::MAX,
                indices.len() % 3 == 0,
                self.vertices == old(self).vertices,
                indices_below(self.indices@, self.vertices.len() as int),
                self.indices@ == indices + ribbon_indices(base as int).take(q as int),
            decreases 18 - q,
        {
            self.indices.push(base + ribbon_vertex(q));
            q += 1;
            assert(self.indices@ =~= indices + ribbon_indices(base as int).take(q as int));
        }
        assert(ribbon_indices(base as int).take(18) =~= ribbon_indices(base as int));
    }
}

impl<V: Copy> Mesh<V> {
    /// Add another mesh behind this one.
    pub fn append(&mut self, other: &Mesh<V>)
        requires
            old(self).wf(),
            other.wf(),
            old(self).vertices.len() + other.vertices.len() <= u32::MAX,
        ensures
            final(self).wf(),
            final(self).vertices@ == old(self).vertices@ + other.vertices@,
            final(self).indices@ == old(self).indices@ + shifted(
                other.indices@,
                old(self).vertices.len() as int,
            ),
    {
        let base: u32 = self.vertices.len() as u32;
        let ghost (vertices, indices) = (self.vertices@, self.indices@);
        let mut k: usize = 0;
        while k < other.vertices.len()
            invariant
                k <= other.vertices.len(),
                self.indices@ == indices,
                self.vertices@ == vertices + other.vertices@.take(k as int),
            decreases other.vertices.len() - k,
        {
            self.vertices.push(other.vertices[k]);
            k += 1;
            assert(self.vertices@ =~= vertices + other.vertices@.take(k as int));
        }
        assert(other.vertices@.take(k as int) =~= other.vertices@);
        let mut j: usize = 0;
        while j < other.indices.len()
            invariant
                j <= other.indices.len(),
                other.wf(),
                base == vertices.len(),
                base + other.vertices.len() <= u32::MAX,
                self.vertices@ == vertices + other.vertices@,
                self.indices@ == indices + shifted(other.indices@, base as int).take(j as int),
            decreases other.indices.len() - j,
        {
            assert(other.indices[j as int] < other.vertices.len());
            self.indices.push(other.indices[j] + base);
            j += 1;
            assert(self.indices@ =~= indices + shifted(other.indices@, base as int).take(
                j as int,
            ));
        }
        proof {
            assert(shifted(other.indices@, base as int).take(j as int) =~= shifted(
                other.indices@,
                base as int,
            ));
            assert forall|i: int| 0 <= i < self.indices.len() implies (#[trigger] self.indices[i])
                < self.vertices.len() by {
                if i < indices.len() {
                    assert(self.indices[i] == indices[i]);
                } else {
                    assert(other.indices[i - indices.len()] < other.vertices.len());
                }
            }
        }
    }
}

/// The vertex that index `q` between two rows of four vertices names:
/// three strips of two triangles.
pub open spec fn ribbon_offset(q: int) -> int {
    let s = q / 6;
    let r = q % 6;
    if r == 0 {
        s
    } else if r == 1 || r == 3 {
        s + 1
    } else if r == 2 || r == 5 {
        4 + s
    } else {
        5 + s
    }
}

/// The indices between two rows of four vertices that start at
/// `base`.
pub open spec fn ribbon_indices(base: int) -> Seq<u32> {
    Seq::new(18, |q: int| (base + ribbon_offset(q)) as u32)
}

/// Three strips join two rows of four vertices: each lies between two neighbours
/// of the one row and the two across from them, in two triangles that turn the
/// same way and share the edge between the corners that lie opposite.
pub proof fn law_strips_join_rows(base: int, s: int)
    requires
        0 <= base,
        base + 8 <= u32::MAX,
        0 <= s < 3,
    ensures
        ({
            let strip = ribbon_indices(base).subrange(6 * s, 6 * s + 6);
            let (near, far) = (base + s, base + 4 + s);
            &&& ribbon_indices(base).len() == 18
            &&& strip[0] == near && strip[1] == near + 1 && strip[2] == far
            &&& strip[3] == near + 1 && strip[4] == far + 1 && strip[5] == far
        }),
{
}

/// The vertex that index `q` between two rows of four vertices names.
fn ribbon_vertex(q: u32) -> (v: u32)
    requires
        q < 18,
    ensures
        v == ribbon_offset(q as int),
        v < 8,
{
    let s: u32 = q / 6;
    let r: u32 = q % 6;
    if r == 0 {
        s
    } else if r == 1 || r == 3 {
        s + 1
    } else if r == 2 || r == 5 {
        4 + s
    } else {
        5 + s
    }
}

/// The vertices of meshes one behind another.
pub open spec fn joined_vertices<V>(parts: Seq<Mesh<V>>) -> Seq<V>
    decreases parts.len(),
{
    if parts.len() == 0 {
        Seq::empty()
    } else {
        joined_vertices(parts.drop_last()) + parts.last().vertices@
    }
}

/// The indices of meshes one behind another, each moved on past the vertices
/// before it.
pub open spec fn joined_indices<V>(parts: Seq<Mesh<V>>) -> Seq<u32>
    decreases parts.len(),
{
    if parts.len() == 0 {
        Seq::empty()
    } else {
        joined_indices(parts.drop_last()) + shifted(
            parts.last().indices@,
            joined_vertices(parts.drop_last()).len() as int,
        )
    }
}

/// Every mesh is well-formed.
pub open spec fn all_wf<V>(parts: Seq<Mesh<V>>) -> bool {
    forall|k: int| 0 <= k < parts.len() ==> (#[trigger] parts[k]).wf()
}

proof fn lemma_joined_len_rises<V>(parts: Seq<Mesh<V>>, k: int)
    requires
        0 <= k <= parts.len(),
    ensures
        joined_vertices(parts.take(k)).len() <= joined_vertices(parts).len(),
    decreases parts.len(),
{
    if k < parts.len() {
        lemma_joined_len_rises(parts.drop_last(), k);
        assert(parts.drop_last().take(k) =~= parts.take(k));
    } else {
        assert(parts.take(k) =~= parts);
    }
}

/// Put meshes one behind another.
pub fn merge<V: Copy>(parts: &Vec<Mesh<V>>) -> (mesh: Mesh<V>)
    requires
        all_wf(parts@),
        joined_vertices(parts@).len() <= u32::MAX,
    ensures
        mesh.wf(),
        mesh.vertices@ == joined_vertices(parts@),
        mesh.indices@ == joined_indices(parts@),
{
    let mut mesh: Mesh<V> = Mesh::new();
    let mut k: usize = 0;
    assert(parts@.take(0) =~= Seq::<Mesh<V>>::empty());
    while k < parts.len()
        invariant
            k <= parts.len(),
            all_wf(parts@),
            joined_vertices(parts@).len() <= u32::MAX,
            mesh.wf(),
            mesh.vertices@ == joined_vertices(parts@.take(k as int)),
            mesh.indices@ == joined_indices(parts@.take(k as int)),
        decreases parts.len() - k,
    {
        proof {
            lemma_joined_len_rises(parts@, k + 1);
            assert(parts@.take(k + 1).drop_last() =~= parts@.take(k as int));
        }
        mesh.append(&parts[k]);
        k += 1;
    }
    assert(parts@.take(k as int) =~= parts@);
    mesh
}

/// A merged mesh shows what its parts show: every index of a part still names
/// the same vertex.
pub proof fn law_merging_keeps_triangles<V>(parts: Seq<Mesh<V>>, p: int, k: int)
    requires
        all_wf(parts),
        joined_vertices(parts).len() <= u32::MAX,
        0 <= p < parts.len(),
        0 <= k < parts[p].indices.len(),
    ensures
        ({
            let at = joined_indices(parts.take(p)).len() + k;
            &&& at < joined_indices(parts).len()
            &&& joined_vertices(parts)[joined_indices(parts)[at] as int]
                == parts[p].vertices[parts[p].indices[k] as int]
        }),
    decreases parts.len(),
{
    let last = parts.len() - 1;
    let head = parts.drop_last();
    assert(parts[p].indices[k] < parts[p].vertices.len());
    if p == last {
        assert(parts.take(p) =~= head);
    } else {
        assert(head.take(p) =~= parts.take(p));
        assert(head[p] == parts[p]);
        assert forall|j: int| 0 <= j < head.len() implies (#[trigger] head[j]).wf() by {
            assert(head[j] == parts[j]);
        }
        law_merging_keeps_triangles(head, p, k);
        lemma_joined_below(head);
        let at = joined_indices(parts.take(p)).len() + k;
        assert(joined_indices(head)[at] < joined_vertices(head).len());
    }
}

proof fn lemma_joined_below<V>(parts: Seq<Mesh<V>>)
    requires
        all_wf(parts),
        joined_vertices(parts).len() <= u32::MAX,
    ensures
        indices_below(joined_indices(parts), joined_vertices(parts).len() as int),
    decreases parts.len(),
{
    if parts.len() > 0 {
        let head = parts.drop_last();
        assert forall|j: int| 0 <= j < head.len() implies (#[trigger] head[j]).wf() by {
            assert(head[j] == parts[j]);
        }
        lemma_joined_below(head);
        assert(parts[parts.len() - 1].wf());
        let base = joined_vertices(head).len() as int;
        assert forall|k: int| 0 <= k < joined_indices(parts).len() implies (
        #[trigger] joined_indices(parts)[k]) < joined_vertices(parts).len() by {
            if k >= joined_indices(head).len() {
                let i = k - joined_indices(head).len();
                assert(parts.last().indices@[i] < parts.last().vertices.len());
            } else {
                assert(joined_indices(head)[k] < base);
            }
        }
    }
}

/// Merging in groups is merging at once: the order of the parts is all that
/// counts, so the groups may be built by different workers.
pub proof fn law_merging_is_associative<V>(a: Seq<Mesh<V>>, b: Seq<Mesh<V>>)
    requires
        joined_vertices(a + b).len() <= u32::MAX,
        all_wf(b),
    ensures
        joined_vertices(a + b) == joined_vertices(a) + joined_vertices(b),
        joined_indices(a + b) == joined_indices(a) + shifted(
            joined_indices(b),
            joined_vertices(a).len() as int,
        ),
    decreases b.len(),
{
    if b.len() == 0 {
        assert(a + b =~= a);
        assert(joined_indices(a) + shifted(
            joined_indices(b),
            joined_vertices(a).len() as int,
        ) =~= joined_indices(a));
        assert(joined_vertices(a) + joined_vertices(b) =~= joined_vertices(a));
    } else {
        let c = b.drop_last();
        assert((a + b).drop_last() =~= a + c);
        lemma_joined_len_rises(a + b, (a + c).len() as int);
        assert((a + b).take((a + c).len() as int) =~= a + c);
        assert forall|j: int| 0 <= j < c.len() implies (#[trigger] c[j]).wf() by {
            assert(c[j] == b[j]);
        }
        law_merging_is_associative(a, c);
        assert(joined_vertices(a + b) =~= joined_vertices(a) + joined_vertices(b));
        lemma_joined_below(c);
        let base = joined_vertices(a).len() as int;
        let left = joined_indices(a + b);
        let right = joined_indices(a) + shifted(joined_indices(b), base);
        assert(b[b.len() - 1].wf());
        assert forall|k: int| 0 <= k < left.len() implies left[k] == right[k] by {
            let m = joined_indices(a + c).len() as int;
            if k >= m {
                assert(b.last().indices@[k - m] < b.last().vertices.len());
            }
        }
        assert(left =~= right);
    }
}

/// How `count` pieces of work are cut for a pool: so many chunks of so many
/// pieces, a few chunks per worker and no chunk without work.
pub open spec fn chunk_count(count: int, threads: int) -> int {
    least(most(threads, 1) * 3, count)
}

/// The number of chunks and the pieces per chunk for `count` pieces of work on
/// a pool of `threads` workers.
pub fn chunk_plan(count: usize, threads: usize) -> (plan: (usize, usize))
    requires
        count > 0,
        threads <= usize::MAX / 3,
    ensures
        plan.0 == chunk_count(count as int, threads as int),
        plan.1 == ceil_div(count as int, plan.0 as int),
        1 <= plan.0 <= count,
        plan.0 * plan.1 >= count,
{
    let workers: usize = if threads < 1 {
        1
    } else {
        threads
    };
    let chunks: usize = if workers * 3 < count {
        workers * 3
    } else {
        count
    };
    let size: usize = div_ceil(count, chunks);
    proof {
        lemma_ceil_div(count as int, chunks as int);
        assert(chunks * size == size * chunks) by (nonlinear_arith);
    }
    (chunks, size)
}

/// Each worker gets three chunks, unless there is less work than that.
pub proof fn law_workers_get_three_chunks(count: int, threads: int)
    requires
        count >= 1,
        threads >= 0,
    ensures
        chunk_count(count, threads) <= count,
        threads >= 1 && 3 * threads <= count ==> chunk_count(count, threads) == 3 * threads,
        threads >= 1 && 3 * threads >= count ==> chunk_count(count, threads) == count,
        chunk_count(count, 0) == chunk_count(count, 1),
{
}

} // verus!
