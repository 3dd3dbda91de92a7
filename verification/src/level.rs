//! The per-cell classification rule: for a (key, query) pair and a window
//! size, decide whether the cell is skipped, computed at full resolution, or
//! computed against a 2-wide or 4-wide pooled key aggregate.

use vstd::prelude::*;

verus! {

/// How one (key, query) cell is computed: not at all, at full resolution,
/// against a 2-wide pooled key, or against a 4-wide pooled key.
#[derive(Clone, Copy, Debug, PartialEq, Eq, Structural)]
pub enum Level {
    Skip,
    Full,
    Half,
    Quarter,
}

/// The window, widened by one for odd 1-based query positions, which keeps
/// the window boundary aligned across the two parity classes of queries.
pub open spec fn eff_window(q: int, window: int) -> int {
    if (q + 1) % 2 != 0 {
        window + 1
    } else {
        window
    }
}

/// The classification rule, over mathematical integers.
///
/// With `k1 = k + 1` and `q1 = q + 1` the 1-based positions: a future key is
/// skipped; a key inside the effective window is full resolution; outside the
/// window only even `k1` take part, pooled by 2 in a near band and by 4 (for
/// `k1` a multiple of 4) in a far band; everything else is skipped.
pub open spec fn level_spec(k: int, q: int, window: int) -> Level {
    let k1: int = k + 1;
    let q1: int = q + 1;
    let w: int = eff_window(q, window);
    if k > q {
        Level::Skip
    } else if q1 <= w {
        Level::Full
    } else {
        let outside: int = q1 - w;
        if outside < k1 {
            Level::Full
        } else if k1 % 2 != 0 {
            Level::Skip
        } else {
            let far: int = outside - (if window <= outside { window } else { outside });
            if far < k1 || far < 4 {
                Level::Half
            } else if k1 % 4 == 0 {
                Level::Quarter
            } else {
                Level::Skip
            }
        }
    }
}

/// The integer code of a level, as the work-item lists carry it.
pub open spec fn mask_of(l: Level) -> u8 {
    match l {
        Level::Skip => 0u8,
        Level::Full => 1u8,
        Level::Half => 2u8,
        Level::Quarter => 4u8,
    }
}

/// The classification rule as an integer code.
pub open spec fn mask_spec(k: int, q: int, window: int) -> u8 {
    mask_of(level_spec(k, q, window))
}

/// Classifies one (key, query) cell.
pub fn classify(k: usize, q: usize, window: usize) -> (r: Level)
    requires
        q < usize::MAX,
        window < usize::MAX,
    ensures
        r == level_spec(k as int, q as int, window as int),
{
    if k > q {
        return Level::Skip;
    }
    let k1: usize = k + 1;
    let q1: usize = q + 1;
    let mut w: usize = window;
    if q1 % 2 != 0 {
        w = w + 1;
    }
    if q1 <= w {
        return Level::Full;
    }
    let outside: usize = q1 - w;
    if outside < k1 {
        return Level::Full;
    }
    if k1 % 2 != 0 {
        return Level::Skip;
    }
    let clipped: usize = if window <= outside {
        window
    } else {
        outside
    };
    let far: usize = outside - clipped;
    if far < k1 {
        return Level::Half;
    }
    if far < 4 {
        return Level::Half;
    }
    if k1 % 4 == 0 {
        Level::Quarter
    } else {
        Level::Skip
    }
}

/// Classifies one (key, query) cell and returns the integer code of the
/// level: 0 for skip, 1 for full, 2 for half, 4 for quarter.
pub fn find_mask(x: usize, y: usize, window: usize) -> (r: u8)
    requires
        y < usize::MAX,
        window < usize::MAX,
    ensures
        r == mask_spec(x as int, y as int, window as int),
{
    match classify(x, y, window) {
        Level::Skip => 0,
        Level::Full => 1,
        Level::Half => 2,
        Level::Quarter => 4,
    }
}

/// Causality: a key strictly past its query is always skipped.
pub proof fn lemma_causality(k: int, q: int, window: int)
    requires
        k > q,
    ensures
        level_spec(k, q, window) == Level::Skip,
        mask_spec(k, q, window) == 0,
{
}

/// Precondition safety: a half-pooled cell has a key of at least 1, a
/// quarter-pooled cell a key of at least 3, so the pooled aggregates never
/// reach before the start of the key sequence.
pub proof fn lemma_pool_bounds(k: int, q: int, window: int)
    requires
        0 <= k,
    ensures
        level_spec(k, q, window) == Level::Half ==> k >= 1,
        level_spec(k, q, window) == Level::Quarter ==> k >= 3,
{
}

/// Full coverage: while the whole sequence up to the query still fits inside
/// the window, every causal key is computed at full resolution.
pub proof fn lemma_full_window(k: int, q: int, window: int)
    requires
        0 <= k <= q,
        q + 1 <= window,
    ensures
        level_spec(k, q, window) == Level::Full,
{
}

/// Information content of a level: full > half > quarter > skip.
pub open spec fn info_rank(l: Level) -> int {
    match l {
        Level::Skip => 0int,
        Level::Quarter => 1int,
        Level::Half => 2int,
        Level::Full => 3int,
    }
}

/// Resolution monotonicity: within one query row, of two keys that are both
/// computed, the nearer one never carries less information than the farther
/// one — full-resolution keys lie above the half-pooled band, which lies
/// above the quarter-pooled band.
pub proof fn lemma_resolution_monotone(ka: int, kb: int, q: int, window: int)
    requires
        0 <= ka < kb,
        level_spec(ka, q, window) != Level::Skip,
        level_spec(kb, q, window) != Level::Skip,
    ensures
        info_rank(level_spec(ka, q, window)) <= info_rank(level_spec(kb, q, window)),
{
}

} // verus!
