//! A small deterministic generator of numbers.

use vstd::prelude::*;

verus! {

/// How many values one draw can take.
pub const DRAWS: u32 = 16_777_216;

/// The next state of the generator.
pub open spec fn rng_step(state: u64) -> u64 {
    let a = state ^ (state >> 12u64);
    let b = a ^ (a << 25u64);
    b ^ (b >> 27u64)
}

/// The number that a state gives.
pub open spec fn rng_word(state: u64) -> u64 {
    state.wrapping_mul(0x2545_F491_4F6C_DD1D)
}

/// The draw that a state gives: one of `DRAWS` equally spaced values below one,
/// by its number.
pub open spec fn rng_draw(state: u64) -> u32 {
    (rng_word(state) >> 40u64) as u32
}

/// The state of a seed whose bits are spread first.
pub open spec fn spread_seed(seed: u64) -> u64 {
    seed.wrapping_mul(0x9E37_79B9_7F4A_7C15) | 1
}

/// A small deterministic generator.
#[derive(Clone, Copy, Debug, PartialEq, Eq, Structural)]
pub struct Rng {
    pub state: u64,
}

impl Rng {
    /// The generator of a seed.
    pub fn new(seed: u64) -> (rng: Rng)
        ensures
            rng.state == seed | 1,
            rng.state != 0,
    {
        assert(seed | 1 != 0) by (bit_vector);
        Rng { state: seed | 1 }
    }

    /// The generator of a seed whose bits are spread first.
    pub fn spread(seed: u64) -> (rng: Rng)
        ensures
            rng.state == spread_seed(seed),
            rng.state != 0,
    {
        let state: u64 = seed.wrapping_mul(0x9E37_79B9_7F4A_7C15) | 1;
        let ghost product = seed.wrapping_mul(0x9E37_79B9_7F4A_7C15);
        assert(product | 1 != 0) by (bit_vector);
        Rng { state }
    }

    /// The next number.
    pub fn next_u64(&mut self) -> (word: u64)
        ensures
            final(self).state == rng_step(old(self).state),
            word == rng_word(final(self).state),
    {
        let mut x: u64 = self.state;
        x = x ^ (x >> 12u64);
        x = x ^ (x << 25u64);
        x = x ^ (x >> 27u64);
        self.state = x;
        x.wrapping_mul(0x2545_F491_4F6C_DD1D)
    }

    /// The next draw, by its number.
    pub fn draw(&mut self) -> (k: u32)
        ensures
            final(self).state == rng_step(old(self).state),
            k == rng_draw(final(self).state),
            k < DRAWS,
    {
        let word: u64 = self.next_u64();
        assert(word >> 40u64 < 16_777_216) by (bit_vector);
        (word >> 40u64) as u32
    }
}

/// The generator never gets stuck at nought.
pub proof fn law_rng_state_stays_alive(state: u64)
    requires
        state != 0,
    ensures
        rng_step(state) != 0,
{
    let a = state ^ (state >> 12u64);
    let b = a ^ (a << 25u64);
    let c = b ^ (b >> 27u64);
    assert(state != 0 ==> a != 0) by (bit_vector)
        requires
            a == state ^ (state >> 12u64),
    ;
    assert(a != 0 ==> b != 0) by (bit_vector)
        requires
            b == a ^ (a << 25u64),
    ;
    assert(b != 0 ==> c != 0) by (bit_vector)
        requires
            c == b ^ (b >> 27u64),
    ;
}

/// A draw is below one: its number is below `DRAWS`.
pub proof fn law_draws_are_below_one(state: u64)
    ensures
        rng_draw(state) < DRAWS,
{
    let word = rng_word(state);
    assert(word >> 40u64 < 16_777_216) by (bit_vector);
}

/// `chance` takes no draw behind one that it leaves.
pub open spec fn is_chance<F: Fn(u32) -> bool>(chance: F) -> bool {
    &&& forall|k: u32| chance.requires((k,))
    &&& forall|j: u32, k: u32| #[trigger]
        chance.ensures((k,), true) && #[trigger] chance.ensures((j,), false) ==> k < j
}

/// The draws that `chance` takes are those below `n`: it has taken the last of
/// them and left the one behind, and so it takes all of them and no others.
pub open spec fn is_threshold<F: Fn(u32) -> bool>(n: u32, chance: F) -> bool {
    &&& n <= DRAWS
    &&& n > 0 ==> chance.ensures(((n - 1) as u32,), true)
    &&& n < DRAWS ==> chance.ensures((n,), false)
    &&& forall|k: u32| #[trigger] chance.ensures((k,), false) ==> n <= k
    &&& forall|k: u32| #[trigger] chance.ensures((k,), true) && k < DRAWS ==> k < n
}

/// How many draws `chance` takes.
pub fn threshold<F: Fn(u32) -> bool>(chance: F) -> (n: u32)
    requires
        is_chance(chance),
    ensures
        is_threshold(n, chance),
{
    let mut lo: u32 = 0;
    let mut hi: u32 = DRAWS;
    while lo < hi
        invariant
            lo <= hi <= DRAWS,
            is_chance(chance),
            lo > 0 ==> chance.ensures(((lo - 1) as u32,), true),
            hi < DRAWS ==> chance.ensures((hi,), false),
        decreases hi - lo,
    {
        let mid: u32 = (lo + hi) / 2;
        if chance(mid) {
            lo = mid + 1;
        } else {
            hi = mid;
        }
    }
    lo
}

/// Spreads a number over all its bits.
pub open spec fn mixed(z: u64) -> u64 {
    let a = z.wrapping_add(0x9E37_79B9_7F4A_7C15);
    let b = (a ^ (a >> 30u64)).wrapping_mul(0xBF58_476D_1CE4_E5B9);
    let c = (b ^ (b >> 27u64)).wrapping_mul(0x94D0_49BB_1331_11EB);
    c ^ (c >> 31u64)
}

/// Spread a number over all its bits.
pub fn splitmix(z: u64) -> (m: u64)
    ensures
        m == mixed(z),
{
    let a: u64 = z.wrapping_add(0x9E37_79B9_7F4A_7C15);
    let b: u64 = (a ^ (a >> 30u64)).wrapping_mul(0xBF58_476D_1CE4_E5B9);
    let c: u64 = (b ^ (b >> 27u64)).wrapping_mul(0x94D0_49BB_1331_11EB);
    c ^ (c >> 31u64)
}

} // verus!
