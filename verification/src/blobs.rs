//! Stochastic organic terrain blobs grown from random seed cells.
//!
//! Each seed paints one random cell, then expands outward level by level:
//! every painted cell offers its four grid neighbours, and each eligible
//! neighbour is painted with a probability that starts at one half and
//! halves with every level, so a blob's expected radius is bounded. A cell
//! in column zero never receives paint, and expansion never crosses a row
//! boundary, so every painted cell stays 4-connected to its seed's origin.

use vstd::prelude::*;

use crate::ConfigError;
use crate::Generator;
use crate::rng;

verus! {

/// Two flat indices of a row-major grid of the given width denote 4-adjacent
/// cells: same row and neighbouring columns, or same column and neighbouring
/// rows.
pub open spec fn adjacent(width: int, a: int, b: int) -> bool {
    let ax = a % width;
    let ay = a / width;
    let bx = b % width;
    let by = b / width;
    ||| (ay == by && (bx == ax + 1 || bx == ax - 1))
    ||| (ax == bx && (by == ay + 1 || by == ay - 1))
}

/// `p` walks from `from` to `to` through cells of `s`, each step 4-adjacent.
#[verifier::opaque]
pub open spec fn is_path(width: int, s: Set<int>, p: Seq<int>, from: int, to: int) -> bool {
    &&& p.len() >= 1
    &&& p[0] == from
    &&& p[p.len() - 1] == to
    &&& (forall|i: int| 0 <= i < p.len() ==> s.contains(#[trigger] p[i]))
    &&& (forall|i: int| 0 <= i < p.len() - 1 ==> adjacent(width, #[trigger] p[i], p[i + 1]))
}

/// `to` can be reached from `from` through 4-adjacent cells of `s`.
#[verifier::opaque]
pub open spec fn reachable(width: int, s: Set<int>, from: int, to: int) -> bool {
    exists|p: Seq<int>| is_path(width, s, p, from, to)
}

/// A path through a set is a path through any larger set.
proof fn lemma_reachable_mono(width: int, s1: Set<int>, s2: Set<int>, from: int, to: int)
    requires
        reachable(width, s1, from, to),
        s1.subset_of(s2),
    ensures
        reachable(width, s2, from, to),
{
    reveal(reachable);
    reveal(is_path);
    let p = choose|p: Seq<int>| is_path(width, s1, p, from, to);
    assert(is_path(width, s2, p, from, to));
}

/// A cell of a set reaches itself.
proof fn lemma_reachable_self(width: int, s: Set<int>, a: int)
    requires
        s.contains(a),
    ensures
        reachable(width, s, a, a),
{
    reveal(reachable);
    reveal(is_path);
    let p = seq![a];
    assert(is_path(width, s, p, a, a));
}

/// A path extends by one adjacent cell of the set.
proof fn lemma_reachable_step(width: int, s: Set<int>, from: int, mid: int, to: int)
    requires
        reachable(width, s, from, mid),
        adjacent(width, mid, to),
        s.contains(to),
    ensures
        reachable(width, s, from, to),
{
    reveal(reachable);
    reveal(is_path);
    let p = choose|p: Seq<int>| is_path(width, s, p, from, mid);
    let p2 = p.push(to);
    assert forall|i: int| 0 <= i < p2.len() - 1 implies adjacent(width, #[trigger] p2[i], p2[i + 1]) by {
        if i < p.len() - 1 {
            assert(p2[i] == p[i] && p2[i + 1] == p[i + 1]);
        } else {
            assert(p2[i] == p[p.len() - 1] && p2[i + 1] == to);
        }
    }
    assert(is_path(width, s, p2, from, to));
}

/// Every painted cell is reachable from one of the origins through painted
/// cells.
#[verifier::opaque]
pub open spec fn all_reachable(width: int, painted: Set<int>, origins: Set<int>) -> bool {
    forall|c: int|
        #[trigger] painted.contains(c) ==> exists|o: int|
            origins.contains(o) && reachable(width, painted, o, c)
}

/// Some painted set and origin set witness how a blob call changed the grid;
/// with at least one seed requested, at least one origin was painted.
pub open spec fn blob_cover(pre: Generator, post: Generator, number: usize, seeds: usize) -> bool {
    exists|painted: Set<int>, origins: Set<int>|
        blob_inv(pre, post, number, painted, origins) && (seeds >= 1 ==> exists|o: int|
            origins.contains(o))
}

/// What blob growth maintains: only `painted` cells changed, every painted
/// cell holds the blob tile, and every painted cell is reachable from one of
/// the `origins` through painted cells.
pub open spec fn blob_inv(
    pre: Generator,
    g: Generator,
    number: usize,
    painted: Set<int>,
    origins: Set<int>,
) -> bool {
    &&& g.width == pre.width
    &&& g.height == pre.height
    &&& g.seed == pre.seed
    &&& g.noise_options == pre.noise_options
    &&& g.rooms@ == pre.rooms@
    &&& g.map@.len() == pre.map@.len()
    &&& origins.subset_of(painted)
    &&& (forall|c: int| #[trigger] painted.contains(c) ==> 0 <= c < pre.map@.len())
    &&& (forall|c: int| #[trigger] painted.contains(c) ==> g.map@[c] == number)
    &&& (forall|c: int|
        0 <= c < pre.map@.len() && !painted.contains(c) ==> #[trigger] g.map@[c] == pre.map@[c])
    &&& (forall|c: int|
        #[trigger] painted.contains(c) && c % (pre.width as int) == 0 ==> origins.contains(c))
    &&& all_reachable(pre.width as int, painted, origins)
}

/// Painting a cell adjacent to an already painted cell keeps every painted
/// cell reachable from an origin.
proof fn lemma_paint_step(
    width: int,
    painted: Set<int>,
    origins: Set<int>,
    c: int,
    cand: int,
)
    requires
        all_reachable(width, painted, origins),
        painted.contains(c),
        adjacent(width, c, cand),
    ensures
        all_reachable(width, painted.insert(cand), origins),
{
    reveal(all_reachable);
    let p2 = painted.insert(cand);
    assert forall|cc: int| #[trigger] p2.contains(cc) implies exists|oo: int|
        origins.contains(oo) && reachable(width, p2, oo, cc) by {
        if cc == cand {
            let oo = choose|oo: int| origins.contains(oo) && reachable(width, painted, oo, c);
            lemma_reachable_mono(width, painted, p2, oo, c);
            lemma_reachable_step(width, p2, oo, c, cand);
            assert(origins.contains(oo) && reachable(width, p2, oo, cc));
        } else {
            let oo = choose|oo: int| origins.contains(oo) && reachable(width, painted, oo, cc);
            lemma_reachable_mono(width, painted, p2, oo, cc);
            assert(origins.contains(oo) && reachable(width, p2, oo, cc));
        }
    }
}

/// Painting a fresh origin keeps every painted cell reachable from an origin.
proof fn lemma_paint_origin(width: int, painted: Set<int>, origins: Set<int>, o: int)
    requires
        all_reachable(width, painted, origins),
    ensures
        all_reachable(width, painted.insert(o), origins.insert(o)),
{
    reveal(all_reachable);
    let p2 = painted.insert(o);
    let o2 = origins.insert(o);
    assert forall|cc: int| #[trigger] p2.contains(cc) implies exists|oo: int|
        o2.contains(oo) && reachable(width, p2, oo, cc) by {
        if cc == o {
            lemma_reachable_self(width, p2, o);
            assert(o2.contains(o) && reachable(width, p2, o, cc));
        } else {
            let oo = choose|oo: int| origins.contains(oo) && reachable(width, painted, oo, cc);
            lemma_reachable_mono(width, painted, p2, oo, cc);
            assert(o2.contains(oo) && reachable(width, p2, oo, cc));
        }
    }
}

/// With nothing painted, reachability holds vacuously.
proof fn lemma_all_reachable_empty(width: int)
    ensures
        all_reachable(width, Set::empty(), Set::empty()),
{
    reveal(all_reachable);
}

/// Stepping one column left within a row is a 4-adjacent move.
proof fn lemma_left_adjacent(w: int, c: int)
    requires
        0 < w,
        0 < c,
        c % w != 0,
    ensures
        adjacent(w, c, c - 1),
{
    vstd::arithmetic::div_mod::lemma_fundamental_div_mod(c, w);
    let q = c / w;
    let rm = c % w;
    assert(q * w == w * q) by (nonlinear_arith);
    vstd::arithmetic::div_mod::lemma_fundamental_div_mod_converse_mod(c - 1, w, q, rm - 1);
    vstd::arithmetic::div_mod::lemma_fundamental_div_mod_converse_div(c - 1, w, q, rm - 1);
}

/// Stepping one column right within a row is a 4-adjacent move.
proof fn lemma_right_adjacent(w: int, c: int)
    requires
        0 < w,
        0 <= c,
        (c + 1) % w != 0,
    ensures
        adjacent(w, c, c + 1),
{
    vstd::arithmetic::div_mod::lemma_fundamental_div_mod(c, w);
    let q = c / w;
    let rm = c % w;
    assert(q * w == w * q) by (nonlinear_arith);
    if rm + 1 < w {
        vstd::arithmetic::div_mod::lemma_fundamental_div_mod_converse_mod(c + 1, w, q, rm + 1);
        vstd::arithmetic::div_mod::lemma_fundamental_div_mod_converse_div(c + 1, w, q, rm + 1);
    } else {
        assert((q + 1) * w == w * q + w) by (nonlinear_arith);
        vstd::arithmetic::div_mod::lemma_fundamental_div_mod_converse_mod(c + 1, w, q + 1, 0);
    }
}

/// Stepping one row up within a column is a 4-adjacent move.
proof fn lemma_up_adjacent(w: int, c: int)
    requires
        0 < w,
        w <= c,
    ensures
        adjacent(w, c, c - w),
{
    vstd::arithmetic::div_mod::lemma_fundamental_div_mod(c, w);
    let q = c / w;
    let rm = c % w;
    assert(q * w == w * q) by (nonlinear_arith);
    assert(q >= 1) by {
        if q < 1 {
            assert(w * q <= 0) by (nonlinear_arith)
                requires
                    q <= 0,
                    0 < w,
            ;
        }
    }
    assert((q - 1) * w == w * q - w) by (nonlinear_arith);
    vstd::arithmetic::div_mod::lemma_fundamental_div_mod_converse_mod(c - w, w, q - 1, rm);
    vstd::arithmetic::div_mod::lemma_fundamental_div_mod_converse_div(c - w, w, q - 1, rm);
}

/// Stepping one row down within a column is a 4-adjacent move.
proof fn lemma_down_adjacent(w: int, c: int)
    requires
        0 < w,
        0 <= c,
    ensures
        adjacent(w, c, c + w),
{
    vstd::arithmetic::div_mod::lemma_fundamental_div_mod(c, w);
    let q = c / w;
    let rm = c % w;
    assert((q + 1) * w == w * q + w) by (nonlinear_arith);
    vstd::arithmetic::div_mod::lemma_fundamental_div_mod_converse_mod(c + w, w, q + 1, rm);
    vstd::arithmetic::div_mod::lemma_fundamental_div_mod_converse_div(c + w, w, q + 1, rm);
}

/// Bernoulli-draw one eligible neighbour `cand` of the painted cell `c`: on
/// success paint it and queue it for the next level.
#[verifier::loop_isolation(false)]
#[verifier::rlimit(60)]
fn try_paint(
    g: &mut Generator,
    rgen: &mut rand::rngs::StdRng,
    next: &mut Vec<usize>,
    c: usize,
    cand: usize,
    den: u32,
    number: usize,
    Ghost(pre): Ghost<Generator>,
    Ghost(painted): Ghost<Set<int>>,
    Ghost(origins): Ghost<Set<int>>,
) -> (new_painted: Ghost<Set<int>>)
    requires
        blob_inv(pre, *old(g), number, painted, origins),
        painted.contains(c as int),
        0 < cand < pre.map@.len(),
        (cand as int) % (pre.width as int) != 0,
        adjacent(pre.width as int, c as int, cand as int),
        1 <= den,
        forall|k: int|
            0 <= k < old(next)@.len() ==> painted.contains(#[trigger] old(next)@[k] as int),
    ensures
        blob_inv(pre, *final(g), number, new_painted@, origins),
        painted.subset_of(new_painted@),
        forall|k: int|
            0 <= k < final(next)@.len() ==> new_painted@.contains(
                #[trigger] final(next)@[k] as int,
            ),
{
    if rng::rng_ratio(rgen, 1, den) {
        let ghost before = g.map@;
        g.map.set(cand, number);
        next.push(cand);
        proof {
            let p2 = painted.insert(cand as int);
            lemma_paint_step(pre.width as int, painted, origins, c as int, cand as int);
            assert(g.map@ == before.update(cand as int, number));
            assert forall|cc: int|
                0 <= cc < pre.map@.len() && !p2.contains(cc) implies #[trigger] g.map@[cc]
                == pre.map@[cc] by {
                assert(!painted.contains(cc));
            }
            assert forall|cc: int| #[trigger] p2.contains(cc) implies g.map@[cc] == number by {
                if cc != cand as int {
                    assert(painted.contains(cc));
                }
            }
        }
        Ghost(painted.insert(cand as int))
    } else {
        Ghost(painted)
    }
}

/// Offer all four grid neighbours of the painted cell `c` for expansion. A
/// neighbour is eligible only if it lies strictly inside the flat index
/// range, is not in column zero, and sits in the row the step expects, so
/// expansion never wraps across a row boundary.
#[verifier::loop_isolation(false)]
#[verifier::rlimit(60)]
fn expand_from(
    g: &mut Generator,
    rgen: &mut rand::rngs::StdRng,
    next: &mut Vec<usize>,
    c: usize,
    den: u32,
    number: usize,
    width: usize,
    total: usize,
    Ghost(pre): Ghost<Generator>,
    Ghost(painted): Ghost<Set<int>>,
    Ghost(origins): Ghost<Set<int>>,
) -> (new_painted: Ghost<Set<int>>)
    requires
        blob_inv(pre, *old(g), number, painted, origins),
        painted.contains(c as int),
        width == pre.width,
        1 <= width,
        total == pre.map@.len(),
        width <= total,
        1 <= den,
        forall|k: int|
            0 <= k < old(next)@.len() ==> painted.contains(#[trigger] old(next)@[k] as int),
    ensures
        blob_inv(pre, *final(g), number, new_painted@, origins),
        painted.subset_of(new_painted@),
        forall|k: int|
            0 <= k < final(next)@.len() ==> new_painted@.contains(
                #[trigger] final(next)@[k] as int,
            ),
{
    let ghost mut cur = painted;

    if c >= 1 && c % width != 0 {
        let cand = c - 1;
        if cand > 0 && cand % width != 0 {
            proof {
                lemma_left_adjacent(width as int, c as int);
            }
            let gp = try_paint(g, rgen, next, c, cand, den, number, Ghost(pre), Ghost(cur), Ghost(origins));
            proof {
                cur = gp@;
            }
        }
    }

    if c < total - 1 {
        let cand = c + 1;
        if cand % width != 0 {
            proof {
                lemma_right_adjacent(width as int, c as int);
            }
            let gp = try_paint(g, rgen, next, c, cand, den, number, Ghost(pre), Ghost(cur), Ghost(origins));
            proof {
                cur = gp@;
            }
        }
    }

    if c > width {
        let cand = c - width;
        if cand % width != 0 {
            proof {
                lemma_up_adjacent(width as int, c as int);
            }
            let gp = try_paint(g, rgen, next, c, cand, den, number, Ghost(pre), Ghost(cur), Ghost(origins));
            proof {
                cur = gp@;
            }
        }
    }

    if c < total - width {
        let cand = c + width;
        if cand > 0 && cand % width != 0 {
            proof {
                lemma_down_adjacent(width as int, c as int);
            }
            let gp = try_paint(g, rgen, next, c, cand, den, number, Ghost(pre), Ghost(cur), Ghost(origins));
            proof {
                cur = gp@;
            }
        }
    }

    Ghost(cur)
}

impl Generator {
    /// Spawns `seeds` organic blobs of `number` tiles, each grown from a
    /// uniformly random cell by the decaying flood fill this module
    /// describes.
    ///
    /// Expansion proceeds breadth-first: the first ring of neighbours is
    /// painted with probability one half, the next with a quarter, and so on;
    /// after thirty-one levels the leftover probability is negligible and
    /// growth stops. Everything the call changes is confined to the painted
    /// cells, each painted cell holds `number`, and each is 4-connected to
    /// the origin cell of some seed through painted cells.
    ///
    /// A grid without cells cannot seed a blob and is rejected.
    #[verifier::loop_isolation(false)]
    pub fn spawn_blobs(self, number: usize, seeds: usize) -> (result: Result<Self, ConfigError>)
        requires
            self.grid_wf(),
        ensures
            result is Ok <==> self.width >= 1 && self.height >= 1,
            result is Err ==> result->Err_0 == ConfigError::EmptyGrid,
            result is Ok ==> blob_cover(self, result->Ok_0, number, seeds),
    {
        if self.width < 1 || self.height < 1 {
            return Err(ConfigError::EmptyGrid);
        }
        let mut g = self;
        let ghost pre = g;
        let mut r = rng::rng_from_seed(g.seed as u64);
        let ghost mut painted: Set<int> = Set::empty();
        let ghost mut origins: Set<int> = Set::empty();
        proof {
            lemma_all_reachable_empty(pre.width as int);
        }
        let total = g.map.len();
        proof {
            assert(total >= g.width) by (nonlinear_arith)
                requires
                    total == g.width * g.height,
                    g.height >= 1,
                    g.width >= 0,
            ;
        }
        let width = g.width;
        let mut s: usize = 0;
        while s < seeds
            invariant
                blob_inv(pre, g, number, painted, origins),
                s >= 1 ==> (exists|o: int| origins.contains(o)),
            decreases seeds - s,
        {
            let o = rng::rng_range(&mut r, 0, total);
            g.map.set(o, number);
            proof {
                lemma_paint_origin(pre.width as int, painted, origins, o as int);
                painted = painted.insert(o as int);
                origins = origins.insert(o as int);
                assert(origins.contains(o as int));
            }
            let mut frontier: Vec<usize> = Vec::new();
            frontier.push(o);
            let mut den: u32 = 2;
            let mut level: u32 = 0;
            while level < 31 && frontier.len() > 0
                invariant
                    blob_inv(pre, g, number, painted, origins),
                    2 <= den,
                    forall|k: int|
                        0 <= k < frontier@.len() ==> painted.contains(
                            #[trigger] frontier@[k] as int,
                        ),
                decreases 31 - level,
            {
                let mut next: Vec<usize> = Vec::new();
                let mut idx: usize = 0;
                while idx < frontier.len()
                    invariant
                        blob_inv(pre, g, number, painted, origins),
                        idx <= frontier@.len(),
                        forall|k: int|
                            0 <= k < frontier@.len() ==> painted.contains(
                                #[trigger] frontier@[k] as int,
                            ),
                        forall|k: int|
                            0 <= k < next@.len() ==> painted.contains(#[trigger] next@[k] as int),
                    decreases frontier@.len() - idx,
                {
                    let c = frontier[idx];
                    let gp = expand_from(
                        &mut g,
                        &mut r,
                        &mut next,
                        c,
                        den,
                        number,
                        width,
                        total,
                        Ghost(pre),
                        Ghost(painted),
                        Ghost(origins),
                    );
                    proof {
                        painted = gp@;
                    }
                    idx = idx + 1;
                }
                frontier = next;
                den = if den <= 0x4000_0000 {
                    den * 2
                } else {
                    den
                };
                level = level + 1;
            }
            s = s + 1;
        }
        proof {
            assert(blob_cover(self, g, number, seeds)) by {
                assert(blob_inv(self, g, number, painted, origins));
            }
        }
        Ok(g)
    }
}

} // verus!
