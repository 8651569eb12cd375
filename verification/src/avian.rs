//! The integer logic of the physics-based 3D backend: its random generator,
//! its count specification and its post-gather filter.

use vstd::prelude::*;

use crate::filters::{reservoir, sample_at_most, RandomSource};
use crate::target::{key_eq, Scope, Target};

verus! {

// ---------------------------------------------------------------------------
// SplitMix64
// ---------------------------------------------------------------------------

/// SplitMix64 random generator.
pub struct SplitMix64 {
    state: u64,
}

/// The state increment of SplitMix64.
pub const SPLITMIX_GAMMA: u64 = 0x9e3779b97f4a7c15u64;

/// The default seed.
pub const SPLITMIX_SEED: u64 = 0xdeadbeefcafe1234u64;

/// One SplitMix64 step from `state`: the next state and the output word.
pub open spec fn splitmix_step(state: u64) -> (u64, u64) {
    let s = vstd::wrapping::u64_specs::wrapping_add(state, SPLITMIX_GAMMA);
    let z1 = vstd::wrapping::u64_specs::wrapping_mul(s ^ (s >> 30u64), 0xbf58476d1ce4e5b9u64);
    let z2 = vstd::wrapping::u64_specs::wrapping_mul(z1 ^ (z1 >> 27u64), 0x94d049bb133111ebu64);
    (s, z2 ^ (z2 >> 31u64))
}

impl SplitMix64 {
    /// The generator's state.
    pub closed spec fn state(&self) -> u64 {
        self.state
    }

    /// A generator with the given seed.
    pub fn from_seed(seed: u64) -> (g: Self)
        ensures
            g.state() == seed,
    {
        SplitMix64 { state: seed }
    }

    /// The low 32 bits of the next word.
    pub fn next_u32(&mut self) -> (r: u32)
        ensures
            final(self).state() == splitmix_step(old(self).state()).0,
            r == (splitmix_step(old(self).state()).1 as u32),
    {
        let w = self.next_u64();
        w as u32
    }
}

impl Default for SplitMix64 {
    /// A generator with the default seed.
    fn default() -> (g: Self)
        ensures
            g.state() == SPLITMIX_SEED,
    {
        SplitMix64 { state: SPLITMIX_SEED }
    }
}

impl RandomSource for SplitMix64 {
    closed spec fn spec_next(&self) -> (Self, u64) {
        let (s, w) = splitmix_step(self.state);
        (SplitMix64 { state: s }, w)
    }

    fn next_u64(&mut self) -> (r: u64) {
        self.state = self.state.wrapping_add(SPLITMIX_GAMMA);
        let mut z = self.state;
        z = (z ^ (z >> 30u64)).wrapping_mul(0xbf58476d1ce4e5b9u64);
        z = (z ^ (z >> 27u64)).wrapping_mul(0x94d049bb133111ebu64);
        z ^ (z >> 31u64)
    }
}

/// The state after `n` steps from `state`.
pub open spec fn splitmix_state(state: u64, n: nat) -> u64
    decreases n,
{
    if n == 0 {
        state
    } else {
        splitmix_step(splitmix_state(state, (n - 1) as nat)).0
    }
}

/// The `k`-th word (0-based) drawn from `state`.
pub open spec fn splitmix_word(state: u64, k: nat) -> u64 {
    splitmix_step(splitmix_state(state, k)).1
}

/// Byte `k` (0-based, least significant first) of `w`.
pub open spec fn le_byte(w: u64, k: u64) -> u8 {
    (w >> ((8 * k) as u64)) as u8
}

impl SplitMix64 {
    /// Fill `dest` with drawn words, eight little-endian bytes per word; a
    /// last partial chunk takes the low bytes of one more word.
    pub fn fill_bytes(&mut self, dest: &mut [u8])
        ensures
            final(dest)@.len() == old(dest)@.len(),
            forall|i: int|
                0 <= i < old(dest)@.len() ==> #[trigger] final(dest)@[i] == le_byte(
                    splitmix_word(old(self).state(), (i / 8) as nat),
                    (i % 8) as u64,
                ),
            final(self).state() == splitmix_state(old(self).state(), ((old(dest)@.len() + 7) / 8) as nat),
    {
        let ghost s0 = self.state;
        let n = dest.len();
        let mut i: usize = 0;
        let ghost mut c: nat = 0;
        while i < n
            invariant
                n == dest@.len(),
                dest@.len() == old(dest)@.len(),
                i <= n,
                i == 8 * c || (i == n && n < 8 * c < n + 8),
                self.state == splitmix_state(s0, c),
                forall|k: int|
                    0 <= k < i ==> #[trigger] dest@[k] == le_byte(
                        splitmix_word(s0, (k / 8) as nat),
                        (k % 8) as u64,
                    ),
            decreases n - i,
        {
            let w = self.next_u64();
            proof {
                assert(w == splitmix_word(s0, c));
            }
            let mut j: u64 = 0;
            while j < 8 && i + (j as usize) < n
                invariant
                    n == dest@.len(),
                    dest@.len() == old(dest)@.len(),
                    i < n,
                    i == 8 * c,
                    j <= 8,
                    i + j <= n,
                    w == splitmix_word(s0, c),
                    forall|k: int|
                        0 <= k < i + j && k < n ==> #[trigger] dest@[k] == le_byte(
                            splitmix_word(s0, (k / 8) as nat),
                            (k % 8) as u64,
                        ),
                decreases 8 - j,
            {
                let shift: u64 = 8 * j;
                let b = (w >> shift) as u8;
                let idx = i + (j as usize);
                dest[idx] = b;
                proof {
                    assert((idx as int) / 8 == c) by (nonlinear_arith)
                        requires
                            idx == 8 * c + j,
                            j < 8,
                    ;
                    assert((idx as int) % 8 == j) by (nonlinear_arith)
                        requires
                            idx == 8 * c + j,
                            j < 8,
                    ;
                }
                j = j + 1;
            }
            proof {
                c = c + 1;
            }
            if j < 8 {
                i = n;
            } else {
                i = i + 8;
            }
        }
        proof {
            assert((n + 7) / 8 == c) by (nonlinear_arith)
                requires
                    i == n,
                    i == 8 * c || (i == n && n < 8 * c < n + 8),
            ;
        }
    }
}

impl SplitMix64 {
    /// Drawing steps the state as SplitMix64 does.
    pub proof fn lemma_next(&self)
        ensures
            self.spec_next().0.state() == splitmix_step(self.state()).0,
            self.spec_next().1 == splitmix_step(self.state()).1,
    {
    }
}

// ---------------------------------------------------------------------------
// NumberType
// ---------------------------------------------------------------------------

/// Count specification: every target, a fixed count, or a count drawn from
/// `min..=max`.
#[derive(Clone, Copy, Debug)]
pub enum NumberType {
    All,
    Fixed(usize),
    Random { min: usize, max: usize },
}

impl Default for NumberType {
    /// The default: no limit.
    fn default() -> (n: Self)
        ensures
            n is All,
    {
        NumberType::All
    }
}

impl NumberType {
    /// Whether resolving draws a random word.
    pub open spec fn draws(self) -> bool {
        match self {
            NumberType::Random { min, max } => min < max,
            _ => false,
        }
    }

    /// The count for the drawn word `w`.
    pub open spec fn count_for(self, w: u64) -> usize {
        match self {
            NumberType::All => 0,
            NumberType::Fixed(n) => n,
            NumberType::Random { min, max } => if min >= max {
                min
            } else {
                (min + ((w as usize) as int) % ((max - min + 1) as int)) as usize
            },
        }
    }

    /// Whether the range's size fits in a `usize`.
    pub open spec fn resolvable(self) -> bool {
        match self {
            NumberType::Random { min, max } => min >= max || max - min + 1 <= usize::MAX,
            _ => true,
        }
    }

    /// Resolve to a concrete count. `All` has none (the caller must not ask).
    pub fn resolve_count<R: RandomSource>(&self, rng: &mut R) -> (n: usize)
        requires
            !(*self is All),
            self.resolvable(),
        ensures
            self.draws() ==> *final(rng) == old(rng).spec_next().0 && n == self.count_for(
                old(rng).spec_next().1,
            ),
            !self.draws() ==> *final(rng) == *old(rng) && n == self.count_for(0),
    {
        match self {
            NumberType::All => 0,
            NumberType::Fixed(n) => *n,
            NumberType::Random { min, max } => {
                if *min >= *max {
                    return *min;
                }
                let range = *max - *min + 1;
                let w = rng.next_u64();
                *min + (w as usize) % range
            },
        }
    }

    /// Resolve to a limit: `None` for `All` (no limit).
    pub fn resolve_limit<R: RandomSource>(&self, rng: &mut R) -> (n: Option<usize>)
        requires
            self.resolvable(),
        ensures
            *self is All ==> n is None && *final(rng) == *old(rng),
            !(*self is All) && self.draws() ==> *final(rng) == old(rng).spec_next().0 && n
                == Some(self.count_for(old(rng).spec_next().1)),
            !(*self is All) && !self.draws() ==> *final(rng) == *old(rng) && n == Some(
                self.count_for(0),
            ),
    {
        match self {
            NumberType::All => None,
            _ => Some(self.resolve_count(rng)),
        }
    }
}

/// A resolved count is the fixed count, or lies in `min..=max` (`min` when
/// the range is empty or a single value).
pub proof fn lemma_count_in_range(n: NumberType, w: u64)
    requires
        n.resolvable(),
        !(n is All),
    ensures
        match n {
            NumberType::Fixed(k) => n.count_for(w) == k,
            NumberType::Random { min, max } => {
                &&& min <= n.count_for(w)
                &&& min < max ==> n.count_for(w) <= max
                &&& min >= max ==> n.count_for(w) == min
            },
            NumberType::All => true,
        },
{
    match n {
        NumberType::Random { min, max } => {
            if min < max {
                let r = (max - min + 1) as int;
                let x = ((w as usize) as int) % r;
                assert(0 <= x < r);
            }
        },
        _ => {},
    }
}

// ---------------------------------------------------------------------------
// AvianFilter
// ---------------------------------------------------------------------------

/// Post-gather filter: a count limit and a line-of-sight requirement.
#[derive(Clone, Copy, Debug)]
pub struct AvianFilter {
    pub count: NumberType,
    pub line_of_sight: bool,
}

impl Default for AvianFilter {
    /// The default filter: no count limit, no line of sight.
    fn default() -> (f: Self)
        ensures
            f.count is All,
            !f.line_of_sight,
    {
        AvianFilter { count: NumberType::All, line_of_sight: false }
    }
}

/// Limit targets to the filter's count by reservoir sampling; `All` passes
/// every target through.
pub fn limit_count<T, R: RandomSource>(targets: Vec<T>, number: &NumberType, rng: &mut R) -> (r:
    Vec<T>)
    requires
        number.resolvable(),
    ensures
        *number is All ==> r@ == targets@ && *final(rng) == *old(rng),
        !(*number is All) ==> ({
            let g = if number.draws() {
                old(rng).spec_next().0
            } else {
                *old(rng)
            };
            let max = if number.draws() {
                number.count_for(old(rng).spec_next().1)
            } else {
                number.count_for(0)
            };
            &&& targets@.len() <= max ==> r@ == targets@ && *final(rng) == g
            &&& targets@.len() > max ==> (r@, *final(rng)) == reservoir(
                targets@,
                max,
                g,
                targets@.len(),
            )
        }),
{
    match number.resolve_limit(rng) {
        None => targets,
        Some(max_count) => sample_at_most(targets, max_count, rng),
    }
}

// ---------------------------------------------------------------------------
// Rank and count of gathered targets
// ---------------------------------------------------------------------------

/// The scope key of a target's rank among the gathered targets.
pub const RANK_KEY: &'static str = "Rank@scope";

/// The scope key of the number of gathered targets.
pub const GATHER_COUNT_KEY: &'static str = "GatherCount@scope";

/// A scope entry with its rank and count filled in.
pub open spec fn ranked_entry<V>(e: (&'static str, V), rank: V, total: V) -> (&'static str, V) {
    if e.0@ == RANK_KEY@ {
        (e.0, rank)
    } else if e.0@ == GATHER_COUNT_KEY@ {
        (e.0, total)
    } else {
        e
    }
}

/// A scope with every rank entry set to `rank` and every count entry set
/// to `total`; other entries unchanged.
pub open spec fn ranked_scope<V>(s: Seq<(&'static str, V)>, rank: V, total: V) -> Seq<(&'static str, V)> {
    Seq::new(s.len(), |i: int| ranked_entry(s[i], rank, total))
}

/// Fill in rank and count once the final set of gathered targets is known:
/// target `i` gets `ranks[i]` under [`RANK_KEY`] and `total` under
/// [`GATHER_COUNT_KEY`] (the caller gives the ranks `0, 1, ...` and the
/// count in the scope's number type).
pub fn fill_rank_and_count<P: Copy, V: Copy>(
    targets: &mut Vec<(Target<P>, Scope<V>)>,
    ranks: &Vec<V>,
    total: V,
)
    requires
        old(targets)@.len() == ranks@.len(),
    ensures
        final(targets)@.len() == old(targets)@.len(),
        forall|i: int|
            0 <= i < old(targets)@.len() ==> (#[trigger] final(targets)@[i]).0 == old(
                targets,
            )@[i].0 && final(targets)@[i].1@ == ranked_scope(old(targets)@[i].1@, ranks@[i], total),
{
    let mut out: Vec<(Target<P>, Scope<V>)> = Vec::new();
    let mut i: usize = 0;
    while i < targets.len()
        invariant
            i <= targets@.len(),
            targets@ == old(targets)@,
            targets@.len() == ranks@.len(),
            out@.len() == i,
            forall|j: int|
                0 <= j < i ==> (#[trigger] out@[j]).0 == targets@[j].0 && out@[j].1@
                    == ranked_scope(targets@[j].1@, ranks@[j], total),
        decreases targets@.len() - i,
    {
        let rank = ranks[i];
        let scope = &targets[i].1;
        let mut s: Scope<V> = Vec::new();
        let mut j: usize = 0;
        while j < scope.len()
            invariant
                j <= scope@.len(),
                s@.len() == j,
                forall|k: int| 0 <= k < j ==> #[trigger] s@[k] == ranked_entry(scope@[k], rank, total),
            decreases scope@.len() - j,
        {
            let (key, val) = scope[j];
            if key_eq(key, RANK_KEY) {
                s.push((key, rank));
            } else if key_eq(key, GATHER_COUNT_KEY) {
                s.push((key, total));
            } else {
                s.push((key, val));
            }
            j = j + 1;
        }
        proof {
            assert(s@ =~= ranked_scope(scope@, rank, total));
        }
        out.push((targets[i].0, s));
        i = i + 1;
    }
    *targets = out;
}

} // verus!
