//! Count resolution and count-limiting of targets (reservoir sampling).

use vstd::prelude::*;

verus! {

// ---------------------------------------------------------------------------
// Random source
// ---------------------------------------------------------------------------

/// A deterministic source of random 64-bit words.
pub trait RandomSource: Sized {
    /// The next state and the word it produces.
    spec fn spec_next(&self) -> (Self, u64);

    /// Draw the next word.
    fn next_u64(&mut self) -> (r: u64)
        ensures
            (*final(self), r) == old(self).spec_next(),
    ;
}

/// The state after `n` draws.
pub open spec fn advance<R: RandomSource>(rng: R, n: nat) -> R
    decreases n,
{
    if n == 0 {
        rng
    } else {
        advance(rng, (n - 1) as nat).spec_next().0
    }
}

// ---------------------------------------------------------------------------
// NumberType
// ---------------------------------------------------------------------------

/// A count: fixed, or drawn uniformly from `min..=max`.
#[derive(Clone, Copy, Debug)]
pub enum NumberType {
    Fixed(usize),
    Random(usize, usize),
}

impl NumberType {
    /// Whether resolving draws a random word.
    pub open spec fn draws(self) -> bool {
        match self {
            NumberType::Fixed(_) => false,
            NumberType::Random(min, max) => min < max,
        }
    }

    /// The count for the drawn word `w` (ignored when nothing is drawn).
    pub open spec fn count_for(self, w: u64) -> usize {
        match self {
            NumberType::Fixed(n) => n,
            NumberType::Random(min, max) => if min >= max {
                min
            } else {
                (min + ((w as usize) as int) % ((max - min + 1) as int)) as usize
            },
        }
    }

    /// Whether the range's size fits in a `usize` (`0..=usize::MAX` does not).
    pub open spec fn resolvable(self) -> bool {
        match self {
            NumberType::Fixed(_) => true,
            NumberType::Random(min, max) => min >= max || max - min + 1 <= usize::MAX,
        }
    }

    /// Resolve to a concrete count: the fixed count; for `Random(min, max)`,
    /// `min` when `min >= max`, else `min + w % (max - min + 1)` for a drawn
    /// word `w`.
    pub fn resolve<R: RandomSource>(&self, rng: &mut R) -> (n: usize)
        requires
            self.resolvable(),
        ensures
            self.draws() ==> *final(rng) == old(rng).spec_next().0 && n == self.count_for(
                old(rng).spec_next().1,
            ),
            !self.draws() ==> *final(rng) == *old(rng) && n == self.count_for(0),
    {
        match self {
            NumberType::Fixed(n) => *n,
            NumberType::Random(min, max) => {
                if *min >= *max {
                    return *min;
                }
                let range = *max - *min + 1;
                let w = rng.next_u64();
                let r = (w as usize) % range;
                proof {
                    assert(r < range);
                }
                *min + r
            },
        }
    }
}

/// A resolved count is the fixed count, or lies in `min..=max` (`min` when
/// the range is empty or a single value).
pub proof fn lemma_count_in_range(n: NumberType, w: u64)
    requires
        n.resolvable(),
    ensures
        match n {
            NumberType::Fixed(k) => n.count_for(w) == k,
            NumberType::Random(min, max) => {
                &&& min <= n.count_for(w)
                &&& min < max ==> n.count_for(w) <= max
                &&& min >= max ==> n.count_for(w) == min
            },
        },
{
    match n {
        NumberType::Fixed(_) => {},
        NumberType::Random(min, max) => {
            if min < max {
                let r = (max - min + 1) as int;
                let x = ((w as usize) as int) % r;
                assert(0 <= x < r);
            }
        },
    }
}

// ---------------------------------------------------------------------------
// Reservoir sampling
// ---------------------------------------------------------------------------

/// Reservoir sampling of the first `i` items into at most `max` slots:
/// the selection and the random state after it. The first `max` items fill
/// the slots; item `j` (0-based) after that draws a word `w` and replaces
/// slot `w % (j + 1)` when that slot exists.
pub open spec fn reservoir<T, R: RandomSource>(items: Seq<T>, max: usize, rng: R, i: nat) -> (
    Seq<T>,
    R,
)
    decreases i,
{
    if i == 0 {
        (Seq::empty(), rng)
    } else {
        let (sel, g) = reservoir(items, max, rng, (i - 1) as nat);
        let t = items[i - 1];
        if sel.len() < max {
            (sel.push(t), g)
        } else {
            let (g2, w) = g.spec_next();
            let r = ((w as usize) as int) % (i as int);
            if r < max {
                (sel.update(r, t), g2)
            } else {
                (sel, g2)
            }
        }
    }
}

/// The selection holds `min(i, max)` items.
pub proof fn lemma_reservoir_len<T, R: RandomSource>(items: Seq<T>, max: usize, rng: R, i: nat)
    ensures
        reservoir(items, max, rng, i).0.len() == if i < max {
            i as int
        } else {
            max as int
        },
    decreases i,
{
    if i > 0 {
        lemma_reservoir_len(items, max, rng, (i - 1) as nat);
    }
}

/// Every selected item is one of the first `i` items.
pub proof fn lemma_reservoir_members<T, R: RandomSource>(
    items: Seq<T>,
    max: usize,
    rng: R,
    i: nat,
    k: int,
)
    requires
        i <= items.len(),
        0 <= k < reservoir(items, max, rng, i).0.len(),
    ensures
        exists|j: int| 0 <= j < i && items[j] == #[trigger] reservoir(items, max, rng, i).0[k],
    decreases i,
{
    let (sel, g) = reservoir(items, max, rng, (i - 1) as nat);
    let t = items[i - 1];
    let out = reservoir(items, max, rng, i).0;
    if out[k] == t {
        assert(items[i - 1] == out[k]);
    } else {
        assert(k < sel.len());
        assert(out[k] == sel[k]);
        lemma_reservoir_members(items, max, rng, (i - 1) as nat, k);
        let j = choose|j: int| 0 <= j < i - 1 && items[j] == reservoir(items, max, rng, (i - 1) as nat).0[k];
        assert(items[j] == out[k]);
    }
}

/// Limit `items` to `max` of them by reservoir sampling, drawing from
/// `rng`. At most `max` items pass unchanged, in order, with no draw.
pub fn sample_at_most<T, R: RandomSource>(items: Vec<T>, max: usize, rng: &mut R) -> (r: Vec<T>)
    ensures
        items@.len() <= max ==> r@ == items@ && *final(rng) == *old(rng),
        items@.len() > max ==> (r@, *final(rng)) == reservoir(
            items@,
            max,
            *old(rng),
            items@.len(),
        ),
{
    if items.len() <= max {
        return items;
    }
    let ghost all = items@;
    let mut rev: Vec<T> = Vec::new();
    let mut rest = items;
    while rest.len() > 0
        invariant
            rest@.len() + rev@.len() == all.len(),
            forall|j: int| 0 <= j < rest@.len() ==> rest@[j] == all[j],
            forall|j: int| 0 <= j < rev@.len() ==> #[trigger] rev@[j] == all[all.len() - 1 - j],
        decreases rest@.len(),
    {
        let x = rest.pop().unwrap();
        rev.push(x);
    }
    let mut selected: Vec<T> = Vec::new();
    let mut i: usize = 0;
    let n = rev.len();
    while rev.len() > 0
        invariant
            n == all.len(),
            max < n,
            rev@.len() + i == n,
            forall|j: int| 0 <= j < rev@.len() ==> #[trigger] rev@[j] == all[n - 1 - j],
            (selected@, *rng) == reservoir(all, max, *old(rng), i as nat),
        decreases rev@.len(),
    {
        let target = rev.pop().unwrap();
        proof {
            assert(target == all[i as int]);
            lemma_reservoir_len(all, max, *old(rng), i as nat);
        }
        if selected.len() < max {
            selected.push(target);
        } else {
            let w = rng.next_u64();
            let r = (w as usize) % (i + 1);
            if r < max {
                selected.set(r, target);
            }
        }
        i = i + 1;
    }
    selected
}

/// Limit targets to the resolved count by reservoir sampling.
pub fn limit_count<T, R: RandomSource>(targets: Vec<T>, number: &NumberType, rng: &mut R) -> (r:
    Vec<T>)
    requires
        number.resolvable(),
    ensures
        ({
            let g = if number.draws() {
                old(rng).spec_next().0
            } else {
                *old(rng)
            };
            let max = if number.draws() {
                number.count_for(old(rng).spec_next().1)
            } else {
                number.count_for(0)
            };
            &&& targets@.len() <= max ==> r@ == targets@ && *final(rng) == g
            &&& targets@.len() > max ==> (r@, *final(rng)) == reservoir(
                targets@,
                max,
                g,
                targets@.len(),
            )
        }),
{
    let max_count = number.resolve(rng);
    sample_at_most(targets, max_count, rng)
}

} // verus!
