//! From a tree's marks to triangles.

use vstd::prelude::*;

use crate::forest::lsystem::{count_of, TOK_B, TOK_F};
use crate::forest::turtle::{branch_marks, law_marks_are_few, marks_of, walk, walk_made, Mark, Turtle};
use crate::mesh::{indices_below, ribbon_indices, Mesh};
use crate::oracle::{
    answer1, answer2, answered1, answered2, lemma_answer1, lemma_answer2, single_valued1,
    single_valued2,
};

verus! {

/// The vertex that index `q` of a leaf names: a fan of four triangles.
pub open spec fn leaf_offset(q: int) -> int {
    let i = q / 3;
    let r = q % 3;
    if r == 0 {
        0
    } else if r == 1 {
        1 + i
    } else if i == 3 {
        1
    } else {
        2 + i
    }
}

/// The indices of a leaf whose vertices start at `base`.
pub open spec fn leaf_indices(base: int) -> Seq<u32> {
    Seq::new(12, |q: int| (base + leaf_offset(q)) as u32)
}

/// The vertices and indices of the first `k` marks. `branch` gives the vertices
/// of a piece of branch, or none where it is too short to show; `leaf` those of
/// a leaf.
pub open spec fn drawn<
    T,
    V,
    B: Fn(Turtle<T>, T) -> Option<[V; 8]>,
    F: Fn(T) -> [V; 5],
>(marks: Seq<Mark<T>>, branch: B, leaf: F, k: int) -> (Seq<V>, Seq<u32>)
    decreases k,
{
    if k <= 0 {
        (Seq::empty(), Seq::empty())
    } else {
        let (vertices, indices) = drawn(marks, branch, leaf, k - 1);
        let base = vertices.len() as int;
        match marks[k - 1] {
            Mark::Branch(start, end) => match answer2(branch, start, end) {
                Some(own) => (vertices + own@, indices + ribbon_indices(base)),
                None => (vertices, indices),
            },
            Mark::Leaf(at) => (vertices + answer1(leaf, at)@, indices + leaf_indices(base)),
        }
    }
}

/// What is drawn of a mark is an answer that its kernel gave.
pub open spec fn mark_made<
    T,
    V,
    B: Fn(Turtle<T>, T) -> Option<[V; 8]>,
    F: Fn(T) -> [V; 5],
>(mark: Mark<T>, branch: B, leaf: F) -> bool {
    match mark {
        Mark::Branch(start, end) => answered2(branch, start, end),
        Mark::Leaf(at) => answered1(leaf, at),
    }
}

/// What is drawn of the first `k` marks are answers that the kernels gave.
pub open spec fn marks_made<
    T,
    V,
    B: Fn(Turtle<T>, T) -> Option<[V; 8]>,
    F: Fn(T) -> [V; 5],
>(marks: Seq<Mark<T>>, branch: B, leaf: F, k: int) -> bool {
    forall|i: int| 0 <= i < k ==> mark_made(#[trigger] marks[i], branch, leaf)
}

proof fn lemma_drawn_bound<
    T,
    V,
    B: Fn(Turtle<T>, T) -> Option<[V; 8]>,
    F: Fn(T) -> [V; 5],
>(marks: Seq<Mark<T>>, branch: B, leaf: F, k: int)
    requires
        0 <= k <= marks.len(),
    ensures
        drawn(marks, branch, leaf, k).0.len() <= 8 * branch_marks(marks.take(k)) + 5 * (k
            - branch_marks(marks.take(k))),
        drawn(marks, branch, leaf, k).0.len() <= 8 * k,
    decreases k,
{
    if k > 0 {
        lemma_drawn_bound(marks, branch, leaf, k - 1);
        assert(marks.take(k).drop_last() =~= marks.take(k - 1));
        assert(marks.take(k).last() == marks[k - 1]);
    } else {
        assert(marks.take(0) =~= Seq::<Mark<T>>::empty());
    }
}

/// The vertex that index `q` of a leaf names.
fn leaf_vertex(q: u32) -> (v: u32)
    requires
        q < 12,
    ensures
        v == leaf_offset(q as int),
        v < 5,
{
    let i: u32 = q / 3;
    let r: u32 = q % 3;
    if r == 0 {
        0
    } else if r == 1 {
        1 + i
    } else if i == 3 {
        1
    } else {
        2 + i
    }
}

/// Add a piece of branch to a mesh.
pub fn emit_segment<V: Copy>(mesh: &mut Mesh<V>, own: [V; 8])
    requires
        old(mesh).wf(),
        old(mesh).vertices.len() + 8 <= u32::MAX,
    ensures
        final(mesh).wf(),
        final(mesh).vertices@ == old(mesh).vertices@ + own@,
        final(mesh).indices@ == old(mesh).indices@ + ribbon_indices(
            old(mesh).vertices.len() as int,
        ),
{
    let ghost (vertices, indices) = (mesh.vertices@, mesh.indices@);
    let base: u32 = mesh.vertices.len() as u32;
    let mut i: usize = 0;
    assert(mesh.vertices@ =~= vertices + own@.take(0));
    while i < 8
        invariant
            i <= 8,
            mesh.indices@ == indices,
            mesh.vertices@ == vertices + own@.take(i as int),
        decreases 8 - i,
    {
        mesh.vertices.push(own[i]);
        i += 1;
        assert(mesh.vertices@ =~= vertices + own@.take(i as int));
    }
    assert(own@.take(8) =~= own@);
    mesh.ribbon(base);
}

/// Add a leaf to a mesh.
pub fn emit_leaf<V: Copy>(mesh: &mut Mesh<V>, own: [V; 5])
    requires
        old(mesh).wf(),
        old(mesh).vertices.len() + 5 <= u32::MAX,
    ensures
        final(mesh).wf(),
        final(mesh).vertices@ == old(mesh).vertices@ + own@,
        final(mesh).indices@ == old(mesh).indices@ + leaf_indices(old(mesh).vertices.len() as int),
{
    let ghost (vertices, indices) = (mesh.vertices@, mesh.indices@);
    let base: u32 = mesh.vertices.len() as u32;
    let mut i: usize = 0;
    assert(mesh.vertices@ =~= vertices + own@.take(0));
    while i < 5
        invariant
            i <= 5,
            mesh.indices@ == indices,
            mesh.vertices@ == vertices + own@.take(i as int),
        decreases 5 - i,
    {
        mesh.vertices.push(own[i]);
        i += 1;
        assert(mesh.vertices@ =~= vertices + own@.take(i as int));
    }
    assert(own@.take(5) =~= own@);
    let mut q: u32 = 0;
    assert(mesh.indices@ =~= indices + leaf_indices(base as int).take(0));
    while q < 12
        invariant
            q <= 12,
            base == vertices.len(),
            base + 5 <= u32::MAX,
            mesh.vertices@ == vertices + own@,
            indices_below(mesh.indices@, base + 5),
            mesh.indices@ == indices + leaf_indices(base as int).take(q as int),
        decreases 12 - q,
    {
        mesh.indices.push(base + leaf_vertex(q));
        q += 1;
        assert(mesh.indices@ =~= indices + leaf_indices(base as int).take(q as int));
    }
    assert(leaf_indices(base as int).take(12) =~= leaf_indices(base as int));
}

/// Draw the marks of a tree.
pub fn draw_marks<
    T: Copy,
    V: Copy,
    B: Fn(Turtle<T>, T) -> Option<[V; 8]>,
    F: Fn(T) -> [V; 5],
>(marks: &Vec<Mark<T>>, branch: &B, leaf: &F) -> (mesh: Mesh<V>)
    requires
        8 * branch_marks(marks@) + 5 * (marks.len() - branch_marks(marks@)) <= u32::MAX,
        single_valued2(*branch),
        single_valued1(*leaf),
        forall|a: Turtle<T>, b: T| branch.requires((a, b)),
        forall|a: T| leaf.requires((a,)),
    ensures
        mesh.wf(),
        mesh.vertices@ == drawn(marks@, *branch, *leaf, marks.len() as int).0,
        mesh.indices@ == drawn(marks@, *branch, *leaf, marks.len() as int).1,
        marks_made(marks@, *branch, *leaf, marks.len() as int),
{
    let mut mesh: Mesh<V> = Mesh::new();
    let mut k: usize = 0;
    while k < marks.len()
        invariant
            k <= marks.len(),
            8 * branch_marks(marks@) + 5 * (marks.len() - branch_marks(marks@)) <= u32::MAX,
            single_valued2(*branch),
            single_valued1(*leaf),
            forall|a: Turtle<T>, b: T| branch.requires((a, b)),
            forall|a: T| leaf.requires((a,)),
            mesh.wf(),
            mesh.vertices@ == drawn(marks@, *branch, *leaf, k as int).0,
            mesh.indices@ == drawn(marks@, *branch, *leaf, k as int).1,
            marks_made(marks@, *branch, *leaf, k as int),
        decreases marks.len() - k,
    {
        proof {
            lemma_drawn_bound(marks@, *branch, *leaf, k as int);
            lemma_branch_marks_rise(marks@, k + 1);
            assert(marks@.take(k + 1).drop_last() =~= marks@.take(k as int));
            assert(marks@.take(k + 1).last() == marks@[k as int]);
        }
        match marks[k] {
            Mark::Branch(start, end) => {
                let own: Option<[V; 8]> = branch(start, end);
                proof {
                    lemma_answer2(*branch, start, end, own);
                }
                if let Some(own) = own {
                    emit_segment(&mut mesh, own);
                }
            },
            Mark::Leaf(at) => {
                let own: [V; 5] = leaf(at);
                proof {
                    lemma_answer1(*leaf, at, own);
                }
                emit_leaf(&mut mesh, own);
            },
        }
        k += 1;
    }
    mesh
}

proof fn lemma_branch_marks_rise<T>(marks: Seq<Mark<T>>, k: int)
    requires
        0 <= k <= marks.len(),
    ensures
        branch_marks(marks.take(k)) <= branch_marks(marks),
        k - branch_marks(marks.take(k)) <= marks.len() - branch_marks(marks),
    decreases marks.len() - k,
{
    if k < marks.len() {
        lemma_branch_marks_rise(marks, k + 1);
        assert(marks.take(k + 1).drop_last() =~= marks.take(k));
    } else {
        assert(marks.take(k) =~= marks);
    }
}

/// The most vertices that a tree can have: those of a piece of branch for every
/// segment and of a leaf for every bud.
pub open spec fn vertex_bound(tokens: Seq<u8>) -> int {
    8 * count_of(tokens, TOK_F) + 5 * count_of(tokens, TOK_B)
}

/// Walk a tree's tokens and draw what the walk leaves.
pub fn build_geometry<
    T: Copy,
    V: Copy,
    A: Fn(T) -> T,
    L: Fn(T) -> T,
    R: Fn(T) -> T,
    D: Fn(T) -> T,
    B: Fn(Turtle<T>, T) -> Option<[V; 8]>,
    F: Fn(T) -> [V; 5],
>(
    tokens: &Vec<u8>,
    seed: u64,
    leaves: u32,
    root: T,
    ahead: &A,
    left: &L,
    right: &R,
    deepen: &D,
    branch: &B,
    leaf: &F,
) -> (mesh: Mesh<V>)
    requires
        vertex_bound(tokens@) <= u32::MAX,
        single_valued1(*ahead),
        single_valued1(*left),
        single_valued1(*right),
        single_valued1(*deepen),
        single_valued2(*branch),
        single_valued1(*leaf),
        forall|t: T| ahead.requires((t,)),
        forall|t: T| left.requires((t,)),
        forall|t: T| right.requires((t,)),
        forall|t: T| deepen.requires((t,)),
        forall|a: Turtle<T>, b: T| branch.requires((a, b)),
        forall|a: T| leaf.requires((a,)),
    ensures
        mesh.wf(),
        ({
            let marks = marks_of(tokens@, seed, leaves, root, *ahead, *left, *right, *deepen);
            &&& mesh.vertices@ == drawn(marks, *branch, *leaf, marks.len() as int).0
            &&& mesh.indices@ == drawn(marks, *branch, *leaf, marks.len() as int).1
            &&& marks_made(marks, *branch, *leaf, marks.len() as int)
        }),
        walk_made(
            tokens@,
            seed,
            leaves,
            root,
            *ahead,
            *left,
            *right,
            *deepen,
            tokens.len() as int,
        ),
        mesh.vertices.len() <= vertex_bound(tokens@),
{
    proof {
        law_marks_are_few(tokens@, seed, leaves, root, *ahead, *left, *right, *deepen);
    }
    let marks: Vec<Mark<T>> = walk(tokens, seed, leaves, root, ahead, left, right, deepen);
    proof {
        lemma_drawn_bound(marks@, *branch, *leaf, marks.len() as int);
        assert(marks@.take(marks.len() as int) =~= marks@);
    }
    draw_marks(&marks, branch, leaf)
}

/// A leaf is a fan of four triangles round its centre: each lies between the
/// centre and two neighbours of the rim, and the last closes on the first.
pub proof fn law_leaves_are_fans(base: int, i: int)
    requires
        0 <= base,
        base + 5 <= u32::MAX,
        0 <= i < 4,
    ensures
        leaf_indices(base).len() == 12,
        leaf_indices(base)[3 * i] == base,
        leaf_indices(base)[3 * i + 1] == base + 1 + i,
        leaf_indices(base)[3 * i + 2] == base + 1 + (i + 1) % 4,
{
}

/// Marks are drawn one behind another: a branch adds its two rows of four
/// vertices and the strips between them, a leaf its centre and rim and the fan
/// over them, and a branch that is too short adds nothing. The new triangles name
/// the new vertices and no others, and what was drawn before stays.
pub proof fn law_marks_are_drawn_in_order<
    T,
    V,
    B: Fn(Turtle<T>, T) -> Option<[V; 8]>,
    F: Fn(T) -> [V; 5],
>(marks: Seq<Mark<T>>, branch: B, leaf: F, k: int, q: int)
    requires
        0 <= k < marks.len(),
        drawn(marks, branch, leaf, k + 1).0.len() <= u32::MAX,
    ensures
        ({
            let before = drawn(marks, branch, leaf, k);
            let after = drawn(marks, branch, leaf, k + 1);
            let (v, i) = (before.0.len() as int, before.1.len() as int);
            &&& after.0.take(v) == before.0
            &&& after.1.take(i) == before.1
            &&& marks[k] matches Mark::Branch(start, end) ==> match answer2(branch, start, end) {
                Some(own) => after.0.skip(v) == own@ && after.1.len() == i + 18,
                None => after.0.len() == v && after.1.len() == i,
            }
            &&& marks[k] matches Mark::Leaf(at) ==> after.0.skip(v) == answer1(leaf, at)@
                && after.1.len() == i + 12
            &&& i <= q < after.1.len() ==> v <= after.1[q] < after.0.len()
        }),
{
    let before = drawn(marks, branch, leaf, k);
    let after = drawn(marks, branch, leaf, k + 1);
    let (v, i) = (before.0.len() as int, before.1.len() as int);
    assert(after.0.take(v) =~= before.0);
    assert(after.1.take(i) =~= before.1);
    match marks[k] {
        Mark::Branch(start, end) => match answer2(branch, start, end) {
            Some(own) => {
                assert(after.0.skip(v) =~= own@);
                if i <= q < after.1.len() {
                    assert(after.1[q] == ribbon_indices(v)[q - i]);
                }
            },
            None => {},
        },
        Mark::Leaf(at) => {
            assert(after.0.skip(v) =~= answer1(leaf, at)@);
            if i <= q < after.1.len() {
                assert(after.1[q] == leaf_indices(v)[q - i]);
            }
        },
    }
}

} // verus!
