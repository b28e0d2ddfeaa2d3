//! The lattice of the noise: a shuffled table, the hashes of a cell's corners,
//! and how their gradients are blended.

use vstd::prelude::*;

use crate::oracle::{
    answer1, answer2, answered1, answered2, lemma_answer1, lemma_answer2, single_valued1,
    single_valued2,
};

verus! {

/// The seed of the table that every field uses.
pub const SHARED_SEED: u32 = 0x9E37_79B9;

/// How far the lattice goes before it repeats.
pub const LATTICE: u32 = 256;

/// The next state of the table's generator.
pub open spec fn shuffle_step(state: u32) -> u32 {
    let a = state ^ (state << 13u32);
    let b = a ^ (a >> 17u32);
    b ^ (b << 5u32)
}

/// `table` with the entries at `i` and `j` exchanged.
pub open spec fn exchanged(table: Seq<u8>, i: int, j: int) -> Seq<u8> {
    table.update(i, table[j]).update(j, table[i])
}

/// The table after the places from `i` down to one were each exchanged with a
/// drawn place before it or itself.
pub open spec fn shuffled(table: Seq<u8>, state: u32, i: int) -> Seq<u8>
    decreases i,
{
    if i < 1 {
        table
    } else {
        let next = shuffle_step(state);
        shuffled(exchanged(table, i, next as int % (i + 1)), next, i - 1)
    }
}

/// The numbers below 256 in their order.
pub open spec fn in_order() -> Seq<u8> {
    Seq::new(256, |i: int| i as u8)
}

/// The table of a seed.
pub open spec fn table_of(seed: u32) -> Seq<u8> {
    shuffled(in_order(), seed | 1, 255)
}

/// The noise's table, twice over, so that a sum of two entries can be looked
/// up.
pub struct Perlin {
    pub perm: Vec<u8>,
}

impl Perlin {
    /// The table repeats after its first half.
    pub open spec fn wf(&self) -> bool {
        &&& self.perm.len() == 512
        &&& forall|i: int| 0 <= i < 256 ==> #[trigger] self.perm[i + 256] == self.perm[i]
    }

    /// The table of a seed.
    pub fn new(seed: u32) -> (noise: Perlin)
        ensures
            noise.wf(),
            noise.perm@ == table_of(seed) + table_of(seed),
    {
        let mut table: Vec<u8> = Vec::new();
        let mut k: usize = 0;
        while k < 256
            invariant
                k <= 256,
                table.len() == k,
                forall|i: int| 0 <= i < k ==> #[trigger] table[i] == i,
            decreases 256 - k,
        {
            table.push(k as u8);
            k += 1;
        }
        let mut state: u32 = seed | 1;
        let mut i: usize = 255;
        assert(table@ =~= in_order());
        while i >= 1
            invariant
                i <= 255,
                table.len() == 256,
                shuffled(table@, state, i as int) == table_of(seed),
            decreases i,
        {
            state = state ^ (state << 13u32);
            state = state ^ (state >> 17u32);
            state = state ^ (state << 5u32);
            let j: usize = state as usize % (i + 1);
            let (a, b) = (table[i], table[j]);
            table.set(i, b);
            table.set(j, a);
            i -= 1;
        }
        let mut perm: Vec<u8> = Vec::new();
        let mut n: usize = 0;
        while n < 512
            invariant
                n <= 512,
                perm.len() == n,
                table.len() == 256,
                forall|k: int| 0 <= k < n ==> #[trigger] perm[k] == table[k % 256],
            decreases 512 - n,
        {
            perm.push(table[n % 256]);
            n += 1;
        }
        assert(perm@ =~= table@ + table@);
        Perlin { perm }
    }

    /// The table that every field uses.
    pub fn shared() -> (noise: Perlin)
        ensures
            noise.wf(),
            noise.perm@ == table_of(SHARED_SEED) + table_of(SHARED_SEED),
    {
        Perlin::new(SHARED_SEED)
    }

    /// The hash of a lattice point.
    pub open spec fn hash(&self, x: int, y: int, z: int) -> u8 {
        self.perm[self.perm[self.perm[x % 256] + y % 256] + z % 256]
    }

    /// The hash of the corner `k` of the cell at a lattice point: bit 0 of `k`
    /// steps along x, bit 1 along y, bit 2 along z. Steps come after the
    /// wrapping, so that the table is read past its first half.
    pub open spec fn corner_hash(&self, x: int, y: int, z: int, k: int) -> u8 {
        let (dx, dy, dz) = (k % 2, (k / 2) % 2, k / 4);
        self.perm[self.perm[self.perm[x % 256 + dx] + y % 256 + dy] + z % 256 + dz]
    }

    /// The hashes of the eight corners of the cell at a lattice point.
    pub fn corner_hashes(&self, x: i32, y: i32, z: i32) -> (hashes: [u8; 8])
        requires
            self.wf(),
        ensures
            forall|k: int|
                0 <= k < 8 ==> #[trigger] hashes@[k] == self.corner_hash(
                    x as int,
                    y as int,
                    z as int,
                    k,
                ),
    {
        let xi: usize = wrap(x);
        let yi: usize = wrap(y);
        let zi: usize = wrap(z);
        let a: usize = self.perm[xi] as usize + yi;
        let aa: usize = self.perm[a] as usize + zi;
        let ab: usize = self.perm[a + 1] as usize + zi;
        let b: usize = self.perm[xi + 1] as usize + yi;
        let ba: usize = self.perm[b] as usize + zi;
        let bb: usize = self.perm[b + 1] as usize + zi;
        [
            self.perm[aa],
            self.perm[ba],
            self.perm[ab],
            self.perm[bb],
            self.perm[aa + 1],
            self.perm[ba + 1],
            self.perm[ab + 1],
            self.perm[bb + 1],
        ]
    }

    /// The noise in the cell at a lattice point: the gradients of its corners,
    /// blended along x, then y, then z. `slope` gives a corner's gradient from
    /// its hash and number.
    pub open spec fn blended<T, G: Fn(u8, usize) -> T, U: Fn(T, T) -> T, V: Fn(T, T) -> T, W: Fn(
        T,
        T,
    ) -> T>(&self, x: int, y: int, z: int, slope: G, along_x: U, along_y: V, along_z: W) -> T {
        let g = |k: int| answer2(slope, self.corner_hash(x, y, z, k), k as usize);
        answer2(
            along_z,
            answer2(
                along_y,
                answer2(along_x, g(0), g(1)),
                answer2(along_x, g(2), g(3)),
            ),
            answer2(
                along_y,
                answer2(along_x, g(4), g(5)),
                answer2(along_x, g(6), g(7)),
            ),
        )
    }

    /// The noise in a cell was blended from answers that the kernels gave.
    pub open spec fn was_blended<
        T,
        G: Fn(u8, usize) -> T,
        U: Fn(T, T) -> T,
        V: Fn(T, T) -> T,
        W: Fn(T, T) -> T,
    >(
        &self,
        x: int,
        y: int,
        z: int,
        slope: G,
        along_x: U,
        along_y: V,
        along_z: W,
        n: T,
    ) -> bool {
        let g = |k: int| answer2(slope, self.corner_hash(x, y, z, k), k as usize);
        let e = |k: int| answer2(along_x, g(2 * k), g(2 * k + 1));
        let f = |k: int| answer2(along_y, e(2 * k), e(2 * k + 1));
        &&& forall|k: int|
            0 <= k < 8 ==> #[trigger] answered2(
                slope,
                self.corner_hash(x, y, z, k),
                k as usize,
            )
        &&& answered2(along_x, g(0), g(1))
        &&& answered2(along_x, g(2), g(3))
        &&& answered2(along_x, g(4), g(5))
        &&& answered2(along_x, g(6), g(7))
        &&& answered2(along_y, e(0), e(1))
        &&& answered2(along_y, e(2), e(3))
        &&& along_z.ensures((f(0), f(1)), n)
    }

    /// The noise in the cell at a lattice point.
    pub fn noise3<T: Copy, G: Fn(u8, usize) -> T, U: Fn(T, T) -> T, V: Fn(T, T) -> T, W: Fn(
        T,
        T,
    ) -> T>(&self, x: i32, y: i32, z: i32, slope: G, along_x: U, along_y: V, along_z: W) -> (n: T)
        requires
            self.wf(),
            single_valued2(slope),
            single_valued2(along_x),
            single_valued2(along_y),
            single_valued2(along_z),
            forall|h: u8, k: usize| slope.requires((h, k)),
            forall|a: T, b: T| along_x.requires((a, b)),
            forall|a: T, b: T| along_y.requires((a, b)),
            forall|a: T, b: T| along_z.requires((a, b)),
        ensures
            n == self.blended(x as int, y as int, z as int, slope, along_x, along_y, along_z),
            self.was_blended(
                x as int,
                y as int,
                z as int,
                slope,
                along_x,
                along_y,
                along_z,
                n,
            ),
    {
        let h: [u8; 8] = self.corner_hashes(x, y, z);
        let g0: T = slope(h[0], 0);
        let g1: T = slope(h[1], 1);
        let g2: T = slope(h[2], 2);
        let g3: T = slope(h[3], 3);
        let g4: T = slope(h[4], 4);
        let g5: T = slope(h[5], 5);
        let g6: T = slope(h[6], 6);
        let g7: T = slope(h[7], 7);
        let e0: T = along_x(g0, g1);
        let e1: T = along_x(g2, g3);
        let e2: T = along_x(g4, g5);
        let e3: T = along_x(g6, g7);
        let f0: T = along_y(e0, e1);
        let f1: T = along_y(e2, e3);
        let n: T = along_z(f0, f1);
        proof {
            lemma_answer2(slope, h@[0], 0, g0);
            lemma_answer2(slope, h@[1], 1, g1);
            lemma_answer2(slope, h@[2], 2, g2);
            lemma_answer2(slope, h@[3], 3, g3);
            lemma_answer2(slope, h@[4], 4, g4);
            lemma_answer2(slope, h@[5], 5, g5);
            lemma_answer2(slope, h@[6], 6, g6);
            lemma_answer2(slope, h@[7], 7, g7);
            lemma_answer2(along_x, g0, g1, e0);
            lemma_answer2(along_x, g2, g3, e1);
            lemma_answer2(along_x, g4, g5, e2);
            lemma_answer2(along_x, g6, g7, e3);
            lemma_answer2(along_y, e0, e1, f0);
            lemma_answer2(along_y, e2, e3, f1);
            lemma_answer2(along_z, f0, f1, n);
        }
        n
    }
}

/// A lattice coordinate wrapped into the table.
fn wrap(x: i32) -> (w: usize)
    ensures
        w == x as int % 256,
        w < 256,
{
    assert(0 <= (x & 255) < 256) by (bit_vector);
    proof {
        lemma_mask(x);
    }
    (x & 255) as usize
}

proof fn lemma_mask(x: i32)
    ensures
        (x & 255) as int == x as int % 256,
{
    let u = x as u32;
    assert((x & 255) as u32 == u & 255) by (bit_vector)
        requires
            u == x as u32,
    ;
    assert(u & 255 == u % 256) by (bit_vector);
    assert(0 <= (x & 255) < 256) by (bit_vector);
    assert(x >= 0 ==> u == x) by (bit_vector)
        requires
            u == x as u32,
    ;
    assert(x < 0 ==> u == x + 0x1_0000_0000) by (bit_vector)
        requires
            u == x as u32,
    ;
}

/// The axes that a hash's gradient goes along: how much of x, y and z it is made
/// of.
pub open spec fn gradient_of(hash: u8) -> (i8, i8, i8) {
    let h = hash % 16;
    if h == 0 || h == 12 {
        (1, 1, 0)
    } else if h == 1 || h == 14 {
        (-1i8, 1, 0)
    } else if h == 2 {
        (1, -1i8, 0)
    } else if h == 3 {
        (-1i8, -1i8, 0)
    } else if h == 4 {
        (1, 0, 1)
    } else if h == 5 {
        (-1i8, 0, 1)
    } else if h == 6 {
        (1, 0, -1i8)
    } else if h == 7 {
        (-1i8, 0, -1i8)
    } else if h == 8 {
        (0, 1, 1)
    } else if h == 9 || h == 13 {
        (0, -1i8, 1)
    } else if h == 10 {
        (0, 1, -1i8)
    } else {
        (0, -1i8, -1i8)
    }
}

/// The gradient of a hash: one of the twelve edge directions of a cube.
pub fn gradient(hash: u8) -> (g: (i8, i8, i8))
    ensures
        g == gradient_of(hash),
{
    let h: u8 = hash % 16;
    match h {
        0 | 12 => (1, 1, 0),
        1 | 14 => (-1, 1, 0),
        2 => (1, -1, 0),
        3 => (-1, -1, 0),
        4 => (1, 0, 1),
        5 => (-1, 0, 1),
        6 => (1, 0, -1),
        7 => (-1, 0, -1),
        8 => (0, 1, 1),
        9 | 13 => (0, -1, 1),
        10 => (0, 1, -1),
        _ => (0, -1, -1),
    }
}

/// Every gradient goes along exactly two axes, one step each.
pub proof fn law_gradients_are_edges(hash: u8)
    ensures
        ({
            let (x, y, z) = gradient_of(hash);
            &&& x * x + y * y + z * z == 2
            &&& -1 <= x <= 1 && -1 <= y <= 1 && -1 <= z <= 1
        }),
{
    let (x, y, z) = gradient_of(hash);
    assert(0 * 0 == 0 && 1 * 1 == 1 && (-1) * (-1) == 1) by (nonlinear_arith);
    assert(x == 0 || x == 1 || x == -1);
    assert(y == 0 || y == 1 || y == -1);
    assert(z == 0 || z == 1 || z == -1);
    assert(x * x == (if x == 0 {
        0int
    } else {
        1int
    })) by (nonlinear_arith)
        requires
            x == 0 || x == 1 || x == -1,
    ;
    assert(y * y == (if y == 0 {
        0int
    } else {
        1int
    })) by (nonlinear_arith)
        requires
            y == 0 || y == 1 || y == -1,
    ;
    assert(z * z == (if z == 0 {
        0int
    } else {
        1int
    })) by (nonlinear_arith)
        requires
            z == 0 || z == 1 || z == -1,
    ;
}

/// A step across the lattice's period leads to the same corners: the noise
/// repeats.
pub proof fn law_lattice_repeats(noise: Perlin, x: int, y: int, z: int, k: int)
    ensures
        noise.corner_hash(x + LATTICE, y, z, k) == noise.corner_hash(x, y, z, k),
        noise.corner_hash(x, y + LATTICE, z, k) == noise.corner_hash(x, y, z, k),
        noise.corner_hash(x, y, z + LATTICE, k) == noise.corner_hash(x, y, z, k),
{
    assert((x + 256) % 256 == x % 256);
    assert((y + 256) % 256 == y % 256);
    assert((z + 256) % 256 == z % 256);
}

/// The cells of the lattice meet: a corner of one cell is the first corner of
/// the next, also across the seam where the lattice repeats.
pub proof fn law_cells_share_their_corners(noise: Perlin, x: int, y: int, z: int, k: int)
    requires
        noise.wf(),
        0 <= k < 8,
    ensures
        noise.corner_hash(x, y, z, k) == noise.hash(x + k % 2, y + (k / 2) % 2, z + k / 4),
{
    let (dx, dy, dz) = (k % 2, (k / 2) % 2, k / 4);
    lemma_seam(noise, x, dx, 0);
    let a = noise.perm[x % 256 + dx];
    assert(a == noise.perm[(x + dx) % 256]);
    lemma_seam(noise, y, dy, a as int);
    let b = noise.perm[a + y % 256 + dy];
    assert(b == noise.perm[a + (y + dy) % 256]);
    lemma_seam(noise, z, dz, b as int);
}

/// A lookup one step past the end of the lattice, or at its start, is the same.
proof fn lemma_seam(noise: Perlin, x: int, d: int, a: int)
    requires
        noise.wf(),
        0 <= d <= 1,
        0 <= a < 256,
    ensures
        noise.perm[a + x % 256 + d] == noise.perm[a + (x + d) % 256],
{
    if x % 256 + d < 256 {
        assert((x + d) % 256 == x % 256 + d);
    } else {
        assert((x + d) % 256 == 0);
        assert(x % 256 == 255);
        assert(noise.perm[a + 256] == noise.perm[a]);
    }
}

proof fn lemma_exchange_keeps_distinct(table: Seq<u8>, i: int, j: int)
    requires
        0 <= i < table.len(),
        0 <= j < table.len(),
        table.no_duplicates(),
    ensures
        exchanged(table, i, j).no_duplicates(),
        exchanged(table, i, j).len() == table.len(),
{
    let after = exchanged(table, i, j);
    assert forall|a: int, b: int|
        0 <= a < after.len() && 0 <= b < after.len() && a != b implies after[a] != after[b] by {
        let from = |k: int|
            if k == j {
                i
            } else if k == i {
                j
            } else {
                k
            };
        assert(after[a] == table[from(a)]);
        assert(after[b] == table[from(b)]);
        assert(from(a) != from(b));
    }
}

proof fn lemma_shuffle_keeps_distinct(table: Seq<u8>, state: u32, i: int)
    requires
        i < table.len(),
        table.no_duplicates(),
    ensures
        shuffled(table, state, i).no_duplicates(),
        shuffled(table, state, i).len() == table.len(),
    decreases i,
{
    if i >= 1 {
        let next = shuffle_step(state);
        let j = next as int % (i + 1);
        lemma_exchange_keeps_distinct(table, i, j);
        lemma_shuffle_keeps_distinct(exchanged(table, i, j), next, i - 1);
    }
}

/// The table holds each of the 256 numbers once, whatever its seed.
pub proof fn law_table_is_a_permutation(seed: u32)
    ensures
        table_of(seed).len() == 256,
        table_of(seed).no_duplicates(),
        forall|v: u8| #[trigger] table_of(seed).contains(v),
{
    assert(in_order().no_duplicates()) by {
        assert forall|a: int, b: int|
            0 <= a < 256 && 0 <= b < 256 && a != b implies in_order()[a] != in_order()[b] by {}
    }
    lemma_shuffle_keeps_distinct(in_order(), seed | 1, 255);
    let table = table_of(seed);
    let values = Set::new(|v: u8| true);
    let numbers = vstd::set_lib::set_int_range(0, 256);
    let taken = table.to_set().map(|v: u8| v as int);
    vstd::set_lib::lemma_int_range(0, 256);
    table.unique_seq_to_set();
    assert forall|n: int| taken.contains(n) implies numbers.contains(n) by {
        let v = choose|v: u8| table.to_set().contains(v) && n == v as int;
    }
    table.to_set().lemma_map_finite(|v: u8| v as int);
    assert forall|a: u8, b: u8| #[trigger]
        table.to_set().contains(a) && #[trigger] table.to_set().contains(b) && a as int == b as int
            implies a == b by {}
    vstd::set_lib::lemma_map_size(table.to_set(), taken, |v: u8| v as int);
    vstd::set_lib::lemma_subset_equality(taken, numbers);
    assert forall|v: u8| #[trigger] table.contains(v) by {
        assert(taken.contains(v as int));
        let w = choose|w: u8| table.to_set().contains(w) && v as int == w as int;
        assert(table.to_set().contains(v));
    }
}

/// The layers of fractal noise: `layer` adds one, at least once.
pub open spec fn layered<A, L: Fn(A) -> A>(start: A, layer: L, k: int) -> A
    decreases k,
{
    if k <= 0 {
        start
    } else {
        answer1(layer, layered(start, layer, k - 1))
    }
}

/// Fractal noise: as many layers as there are octaves, and at least one.
pub fn fbm<A, L: Fn(A) -> A>(start: A, octaves: u32, layer: L) -> (sum: A)
    requires
        single_valued1(layer),
        forall|a: A| layer.requires((a,)),
    ensures
        sum == layered(start, layer, crate::arith::most(octaves as int, 1)),
        forall|k: int|
            0 <= k < crate::arith::most(octaves as int, 1) ==> answered1(
                layer,
                #[trigger] layered(start, layer, k),
            ),
{
    let n: u32 = if octaves < 1 {
        1
    } else {
        octaves
    };
    let ghost first = start;
    let mut sum: A = start;
    let mut i: u32 = 0;
    while i < n
        invariant
            i <= n,
            single_valued1(layer),
            forall|a: A| layer.requires((a,)),
            sum == layered(first, layer, i as int),
            forall|k: int|
                0 <= k < i ==> answered1(layer, #[trigger] layered(first, layer, k)),
        decreases n - i,
    {
        let ghost before = sum;
        sum = layer(sum);
        proof {
            lemma_answer1(layer, before, sum);
        }
        i += 1;
    }
    sum
}

/// How many whole-number seeds give fields of their own.
pub const SEED_PERIOD: u32 = 256_000;

/// The phase of a whole-number seed: where its field begins on the lattice, in
/// hundredths along x and thousandths along y. Each seed pans the field by
/// 0.11 and 0.067.
pub open spec fn phase_of(seed: int) -> (int, int) {
    ((11 * seed) % 25_600, (67 * seed) % 256_000)
}

/// The phase of a whole-number seed.
pub fn seed_phase(seed: u32) -> (phase: (u32, u32))
    ensures
        phase.0 == phase_of(seed as int).0,
        phase.1 == phase_of(seed as int).1,
        phase.0 < 25_600,
        phase.1 < 256_000,
{
    let x: u64 = 11 * seed as u64 % 25_600;
    let y: u64 = 67 * seed as u64 % 256_000;
    (x as u32, y as u32)
}

/// Seeds one period apart give the same field.
pub proof fn law_seeds_repeat_after_their_period(seed: int)
    ensures
        phase_of(seed + SEED_PERIOD) == phase_of(seed),
{
    assert(11 * (seed + 256_000) == 11 * seed + 25_600 * 110);
    vstd::arithmetic::div_mod::lemma_mod_multiples_vanish(110, 11 * seed, 25_600);
    assert(67 * (seed + 256_000) == 67 * seed + 256_000 * 67);
    vstd::arithmetic::div_mod::lemma_mod_multiples_vanish(67, 67 * seed, 256_000);
}

/// Every whole-number seed below the period gives a field of its own.
pub proof fn law_seeds_below_the_period_differ(a: int, b: int)
    requires
        0 <= a < b < SEED_PERIOD,
    ensures
        phase_of(a) != phase_of(b),
{
    if (67 * a) % 256_000 == (67 * b) % 256_000 {
        // 67 has the inverse 183_403 modulo the period: the phases multiplied by
        // it give the seeds back.
        lemma_phase_gives_seed(a);
        lemma_phase_gives_seed(b);
    }
}

proof fn lemma_phase_gives_seed(a: int)
    requires
        0 <= a < 256_000,
    ensures
        (((67 * a) % 256_000) * 183_403) % 256_000 == a,
{
    let p = (67 * a) % 256_000;
    let q = (67 * a) / 256_000;
    assert(67 * a == 256_000 * q + p);
    assert(67 * 183_403 == 1 + 256_000 * 48) by (nonlinear_arith);
    assert(p * 183_403 == a + 256_000 * (48 * a - 183_403 * q)) by (nonlinear_arith)
        requires
            67 * a == 256_000 * q + p,
            67 * 183_403 == 1 + 256_000 * 48,
    ;
    vstd::arithmetic::div_mod::lemma_mod_multiples_vanish(48 * a - 183_403 * q, a, 256_000);
    vstd::arithmetic::div_mod::lemma_small_mod(a as nat, 256_000);
}

/// Where the blends along the three axes have gone to one end each, the noise is
/// what the corner of the cell at those ends gives, from the hash of that
/// corner's own place: so neighbouring cells meet.
pub proof fn law_noise_meets_the_corners<
    T,
    G: Fn(u8, usize) -> T,
    U: Fn(T, T) -> T,
    V: Fn(T, T) -> T,
    W: Fn(T, T) -> T,
>(
    noise: Perlin,
    x: int,
    y: int,
    z: int,
    slope: G,
    along_x: U,
    along_y: V,
    along_z: W,
    far_x: bool,
    far_y: bool,
    far_z: bool,
)
    requires
        noise.wf(),
        forall|a: T, b: T| #[trigger]
            answer2(along_x, a, b) == (if far_x {
                b
            } else {
                a
            }),
        forall|a: T, b: T| #[trigger]
            answer2(along_y, a, b) == (if far_y {
                b
            } else {
                a
            }),
        forall|a: T, b: T| #[trigger]
            answer2(along_z, a, b) == (if far_z {
                b
            } else {
                a
            }),
    ensures
        ({
            let dx = if far_x {
                1int
            } else {
                0int
            };
            let dy = if far_y {
                1int
            } else {
                0int
            };
            let dz = if far_z {
                1int
            } else {
                0int
            };
            noise.blended(x, y, z, slope, along_x, along_y, along_z) == answer2(
                slope,
                noise.hash(x + dx, y + dy, z + dz),
                (dx + 2 * dy + 4 * dz) as usize,
            )
        }),
{
    let dx = if far_x {
        1int
    } else {
        0int
    };
    let dy = if far_y {
        1int
    } else {
        0int
    };
    let dz = if far_z {
        1int
    } else {
        0int
    };
    let k = dx + 2 * dy + 4 * dz;
    law_cells_share_their_corners(noise, x, y, z, k);
    assert(k % 2 == dx && (k / 2) % 2 == dy && k / 4 == dz);
}

/// The twelve gradients: four in each of the planes across, deep and upright, of
/// which the lowest bit turns the first part round and the second bit the other.
/// The four hashes left over repeat some of them.
pub proof fn law_gradients_follow_the_bits(hash: u8)
    ensures
        ({
            let h = hash % 16;
            let a: i8 = if h % 2 == 1 {
                -1i8
            } else {
                1i8
            };
            let b: i8 = if (h / 2) % 2 == 1 {
                -1i8
            } else {
                1i8
            };
            &&& h < 4 ==> gradient_of(hash) == (a, b, 0i8)
            &&& 4 <= h < 8 ==> gradient_of(hash) == (a, 0i8, b)
            &&& 8 <= h < 12 ==> gradient_of(hash) == (0i8, a, b)
            &&& h == 12 ==> gradient_of(hash) == gradient_of(0)
            &&& h == 13 ==> gradient_of(hash) == gradient_of(9)
            &&& h == 14 ==> gradient_of(hash) == gradient_of(1)
            &&& h == 15 ==> gradient_of(hash) == gradient_of(11)
        }),
{
}

proof fn lemma_shuffle_leaves_the_rest(table: Seq<u8>, state: u32, i: int, j: int)
    requires
        i < j < table.len(),
    ensures
        shuffled(table, state, i).len() == table.len(),
        shuffled(table, state, i)[j] == table[j],
    decreases i,
{
    if i >= 1 {
        let next = shuffle_step(state);
        let k = next as int % (i + 1);
        assert(0 <= k <= i) by (nonlinear_arith)
            requires
                k == next as int % (i + 1),
                i >= 1,
        ;
        lemma_shuffle_leaves_the_rest(exchanged(table, i, k), next, i - 1, j);
    }
}

/// The shuffle fills its table from the end: each place takes the one that the
/// next number picks out of all that are left, itself included, and keeps it.
pub proof fn law_shuffle_draws_from_what_is_left(table: Seq<u8>, state: u32, i: int)
    requires
        1 <= i < table.len(),
    ensures
        shuffled(table, state, i)[i] == table[shuffle_step(state) as int % (i + 1)],
        0 <= shuffle_step(state) as int % (i + 1) <= i,
{
    let next = shuffle_step(state);
    let k = next as int % (i + 1);
    assert(0 <= k <= i) by (nonlinear_arith)
        requires
            k == next as int % (i + 1),
            i >= 1,
    ;
    lemma_shuffle_leaves_the_rest(exchanged(table, i, k), next, i - 1, i);
}

/// From one seed to the next the field moves on by the same phase: eleven
/// hundredths of a lattice cell across and sixty-seven thousandths down, round
/// the lattice; the first seed has none.
pub proof fn law_seeds_move_on_evenly(seed: int)
    ensures
        phase_of(0) == (0int, 0int),
        phase_of(seed + 1).0 == (phase_of(seed).0 + 11) % 25_600,
        phase_of(seed + 1).1 == (phase_of(seed).1 + 67) % 256_000,
{
}

/// Every octave is laid on what the ones before it have summed up to.
pub proof fn law_octaves_build_up<A, L: Fn(A) -> A>(start: A, layer: L, k: int)
    requires
        k >= 0,
    ensures
        layered(start, layer, 0) == start,
        layered(start, layer, k + 1) == answer1(layer, layered(start, layer, k)),
        layered(answer1(layer, start), layer, k) == layered(start, layer, k + 1),
    decreases k,
{
    if k > 0 {
        law_octaves_build_up(start, layer, k - 1);
    } else {
        reveal_with_fuel(layered, 2);
    }
}

} // verus!
