//! Gradient ("Perlin-style") noise over a seeded permutation table, computed
//! in fixed-point arithmetic.
//!
//! Every fractional quantity is an integer numerator over [`crate::ONE_Q32`].
//! The permutation table is derived from the seed by a small linear
//! congruential generator driving a Fisher-Yates shuffle, so the whole field
//! is a pure function of the seed.

use vstd::prelude::*;

use crate::rng;

verus! {

/// Q32 fixed-point one, as the local shorthand the noise math uses.
pub const ONE: u64 = 0x1_0000_0000;

/// Coordinates fed to the noise lattice are kept below this bound: the
/// lattice repeats every 256 units, and a unit is `ONE`, so only the low
/// forty bits of a coordinate matter.
pub const COORD_SPAN: u64 = 0x100_0000_0000;

/// Multiplier of the linear congruential generator that seeds the table.
pub const LCG_MUL: u64 = 6364136223846793005;

/// Increment of the linear congruential generator that seeds the table.
pub const LCG_ADD: u64 = 1442695040888963407;

/// One step of the table-seeding generator.
pub closed spec fn lcg_next(s: u64) -> u64 {
    ((s * LCG_MUL + LCG_ADD) % 0x1_0000_0000_0000_0000) as u64
}

/// One step of the table-seeding generator, executable form.
fn lcg_next_exec(s: u64) -> (r: u64)
    ensures
        r == lcg_next(s),
{
    proof {
        assert((s as int) * (LCG_MUL as int) <= 0xFFFF_FFFF_FFFF_FFFF * (LCG_MUL as int))
            by (nonlinear_arith)
            requires
                s <= 0xFFFF_FFFF_FFFF_FFFFu64,
        ;
    }
    let wide: u128 = (s as u128) * (LCG_MUL as u128) + (LCG_ADD as u128);
    (wide % 0x1_0000_0000_0000_0000u128) as u64
}

/// The table before shuffling: the integers `0..256` in order.
pub open spec fn spec_identity_table() -> Seq<usize> {
    Seq::new(256, |i: int| i as usize)
}

/// The Fisher-Yates pass, from position `i` downward: each step swaps
/// position `i` with a generator-chosen position at or below it.
pub closed spec fn spec_shuffle_from(t: Seq<usize>, s: u64, i: nat) -> Seq<usize>
    decreases i,
{
    if i == 0 {
        t
    } else {
        let s2 = lcg_next(s);
        let j = ((s2 / ONE) % (i + 1) as u64) as int;
        let t2 = t.update(i as int, t[j]).update(j, t[i as int]);
        spec_shuffle_from(t2, s2, (i - 1) as nat)
    }
}

/// The shuffled 256-entry table that the given seed produces.
pub open spec fn spec_table(seed: u32) -> Seq<usize> {
    spec_shuffle_from(spec_identity_table(), seed as u64, 255)
}

/// The full 512-entry permutation table: the shuffled table concatenated
/// with itself, which avoids wraparound branching when hashing corners.
pub open spec fn spec_table_full(seed: u32) -> Seq<usize> {
    spec_table(seed) + spec_table(seed)
}

/// The quotient `a * b / ONE`, rounding down: the product of two fixed-point
/// numbers, or a fixed-point fraction of an arbitrary number.
fn qmul_down(a: u64, b: u64) -> (r: u64)
    requires
        a <= ONE,
    ensures
        r == (a as int) * (b as int) / (ONE as int),
        r <= b,
{
    proof {
        assert((a as int) * (b as int) <= (ONE as int) * (b as int)) by (nonlinear_arith)
            requires
                a <= ONE,
        ;
        vstd::arithmetic::div_mod::lemma_div_is_ordered(
            (a as int) * (b as int),
            (ONE as int) * (b as int),
            ONE as int,
        );
        vstd::arithmetic::div_mod::lemma_div_multiples_vanish(b as int, ONE as int);
    }
    let wide: u128 = (a as u128) * (b as u128);
    (wide / (ONE as u128)) as u64
}

/// The fade curve `t^3 * (t * (t * 6 - 15) + 10)` over fixed-point `t`,
/// arranged so every intermediate value stays nonnegative, and clamped into
/// `[0, ONE]` against rounding.
///
/// Its value rises smoothly from zero at `t == 0` to one at `t == ONE` with
/// flat first and second derivatives at both ends, which makes the gradient
/// contributions blend seamlessly across lattice cells.
pub closed spec fn spec_fade(t: u64) -> u64
    recommends
        t <= ONE,
{
    let ti = t as int;
    let one = ONE as int;
    let s1 = 15 * one - 6 * ti;
    let s2 = ti * s1 / one;
    let s3 = if s2 >= 10 * one {
        0
    } else {
        10 * one - s2
    };
    let t2 = ti * ti / one;
    let t3 = t2 * ti / one;
    let raw = t3 * s3 / one;
    if raw > one {
        ONE
    } else {
        raw as u64
    }
}

/// The fade curve, executable form.
fn fade_q(t: u64) -> (r: u64)
    requires
        t <= ONE,
    ensures
        r == spec_fade(t),
        r <= ONE,
{
    let s1: u64 = 15 * ONE - 6 * t;
    let s2: u64 = qmul_down(t, s1);
    let s3: u64 = if s2 >= 10 * ONE {
        0
    } else {
        10 * ONE - s2
    };
    let t2: u64 = qmul_down(t, t);
    let t3: u64 = qmul_down(t2, t);
    let raw: u64 = qmul_down(t3, s3);
    if raw > ONE {
        ONE
    } else {
        raw
    }
}

/// The gradient contribution of a corner: the hash's low bit both selects
/// the offset coordinate and fixes the sign, so the gradient is `-x` for an
/// even hash and `y` for an odd one.
pub closed spec fn spec_grad(hash: usize, x: int, y: int) -> int {
    if hash % 2 == 0 {
        -x
    } else {
        y
    }
}

/// The gradient contribution, executable form.
fn grad_q(hash: usize, x: i64, y: i64) -> (r: i64)
    requires
        -(ONE as i64) <= x <= ONE as i64,
        -(ONE as i64) <= y <= ONE as i64,
    ensures
        r == spec_grad(hash, x as int, y as int),
        -(ONE as int) <= r <= ONE as int,
{
    if hash % 2 == 0 {
        -x
    } else {
        y
    }
}

/// Linear interpolation `a + t * (b - a)` over a fixed-point weight, with the
/// fractional step rounded toward `a`; the result never leaves the interval
/// between `a` and `b`.
pub closed spec fn spec_lerp(t: u64, a: int, b: int) -> int {
    if b >= a {
        a + (t as int) * (b - a) / (ONE as int)
    } else {
        a - (t as int) * (a - b) / (ONE as int)
    }
}

/// Linear interpolation, executable form.
fn lerp_q(t: u64, a: i64, b: i64) -> (r: i64)
    requires
        t <= ONE,
        -(ONE as i64) <= a <= ONE as i64,
        -(ONE as i64) <= b <= ONE as i64,
    ensures
        r == spec_lerp(t, a as int, b as int),
        a <= b ==> a <= r <= b,
        b <= a ==> b <= r <= a,
{
    if b >= a {
        let d: u64 = (b - a) as u64;
        let step: u64 = qmul_down(t, d);
        a + (step as i64)
    } else {
        let d: u64 = (a - b) as u64;
        let step: u64 = qmul_down(t, d);
        a - (step as i64)
    }
}

/// One raw noise sample over the permutation table: hash the four corners of
/// the lattice cell holding the point, take each corner's gradient at the
/// point's offset, and blend the four contributions with the faded
/// fractional coordinates. The result lies in `[-ONE, ONE]`.
pub closed spec fn spec_noise(perm: Seq<usize>, xq: u64, yq: u64) -> int {
    let x0 = ((xq / ONE) % 256) as int;
    let y0 = ((yq / ONE) % 256) as int;
    let fx = (xq % ONE) as int;
    let fy = (yq % ONE) as int;
    let u = spec_fade((xq % ONE) as u64);
    let v = spec_fade((yq % ONE) as u64);
    let p0 = perm[x0] + y0;
    let p1 = perm[x0 + 1] + y0;
    let g00 = spec_grad(perm[p0], fx, fy);
    let g10 = spec_grad(perm[p1], fx - (ONE as int), fy);
    let g01 = spec_grad(perm[p0 + 1], fx, fy - (ONE as int));
    let g11 = spec_grad(perm[p1 + 1], fx - (ONE as int), fy - (ONE as int));
    spec_lerp(v, spec_lerp(u, g00, g10), spec_lerp(u, g01, g11))
}

/// One raw noise sample, executable form.
fn noise_q(perm: &Vec<usize>, xq: u64, yq: u64) -> (r: i64)
    requires
        perm@.len() == 512,
        forall|i: int| 0 <= i < 512 ==> perm@[i] < 256,
    ensures
        r == spec_noise(perm@, xq, yq),
        -(ONE as int) <= r <= ONE as int,
{
    let x0: usize = ((xq / ONE) % 256) as usize;
    let y0: usize = ((yq / ONE) % 256) as usize;
    let fx: u64 = xq % ONE;
    let fy: u64 = yq % ONE;
    let u = fade_q(fx);
    let v = fade_q(fy);
    let p0: usize = perm[x0] + y0;
    let p1: usize = perm[x0 + 1] + y0;
    let fxi: i64 = fx as i64;
    let fyi: i64 = fy as i64;
    let one_i: i64 = ONE as i64;
    let g00 = grad_q(perm[p0], fxi, fyi);
    let g10 = grad_q(perm[p1], fxi - one_i, fyi);
    let g01 = grad_q(perm[p0 + 1], fxi, fyi - one_i);
    let g11 = grad_q(perm[p1 + 1], fxi - one_i, fyi - one_i);
    let la = lerp_q(u, g00, g10);
    let lb = lerp_q(u, g01, g11);
    lerp_q(v, la, lb)
}

/// A deterministic gradient-noise field: a seeded permutation table plus the
/// number of octaves summed per sample.
#[derive(Debug, Clone)]
pub struct PerlinNoise {
    /// The 512-entry permutation table.
    pub perm: Vec<usize>,
    /// Number of noise layers summed per sample.
    pub octaves: usize,
}

impl PerlinNoise {
    /// The table has its fixed shape: 512 entries, each below 256, so that
    /// every corner hash stays inside the table.
    pub open spec fn wf(self) -> bool {
        &&& self.perm@.len() == 512
        &&& (forall|i: int| 0 <= i < 512 ==> self.perm@[i] < 256)
    }

    /// Build the field for a seed, with the given number of octaves.
    #[verifier::loop_isolation(false)]
    pub fn from_seed(seed: u32, octaves: usize) -> (result: Self)
        ensures
            result.perm@ == spec_table_full(seed),
            result.octaves == octaves,
            result.wf(),
    {
        let mut table: Vec<usize> = Vec::new();
        let mut k: usize = 0;
        while k < 256
            invariant
                k <= 256,
                table@ == spec_identity_table().subrange(0, k as int),
            decreases 256 - k,
        {
            table.push(k);
            proof {
                assert(table@ =~= spec_identity_table().subrange(0, k + 1));
            }
            k = k + 1;
        }
        proof {
            assert(table@ =~= spec_identity_table());
        }

        let mut state: u64 = seed as u64;
        let mut i: usize = 255;
        while i >= 1
            invariant
                i <= 255,
                table@.len() == 256,
                forall|q: int| 0 <= q < 256 ==> table@[q] < 256,
                spec_shuffle_from(table@, state, i as nat) == spec_table(seed),
            decreases i,
        {
            state = lcg_next_exec(state);
            let j: usize = ((state / ONE) % (i as u64 + 1)) as usize;
            let ti = table[i];
            let tj = table[j];
            let ghost before = table@;
            table.set(i, tj);
            table.set(j, ti);
            proof {
                assert(table@ =~= before.update(i as int, before[j as int]).update(
                    j as int,
                    before[i as int],
                ));
            }
            i = i - 1;
        }

        let mut perm = table;
        proof {
            assert(perm@ =~= spec_table(seed) + spec_table(seed).subrange(0, 0));
        }
        let mut k2: usize = 0;
        while k2 < 256
            invariant
                k2 <= 256,
                perm@ == spec_table(seed) + spec_table(seed).subrange(0, k2 as int),
                forall|q: int| 0 <= q < perm@.len() ==> perm@[q] < 256,
            decreases 256 - k2,
        {
            let v = perm[k2];
            perm.push(v);
            proof {
                assert(perm@ =~= spec_table(seed) + spec_table(seed).subrange(0, k2 + 1));
            }
            k2 = k2 + 1;
        }
        proof {
            assert(perm@ =~= spec_table_full(seed));
        }
        PerlinNoise { perm, octaves }
    }

    /// Construct a field from a random seed, with the classic four octaves.
    pub fn new() -> (result: Self)
        ensures
            result.octaves == 4,
            result.wf(),
    {
        Self::from_seed(rng::random_seed(), 4)
    }

    /// Sum and leftover amplitude of `n` octaves starting from the given
    /// coordinates and amplitude: each layer contributes its amplitude times
    /// the raw sample remapped into `[0, ONE]`, and each deeper layer doubles
    /// the coordinates and halves the amplitude.
    pub closed spec fn spec_octaves(perm: Seq<usize>, cx: u64, cy: u64, effect: u64, n: nat) -> (
        int,
        u64,
    )
        decreases n,
    {
        if n == 0 {
            (0, effect)
        } else {
            let e2 = effect / 2;
            let nz = spec_noise(perm, cx, cy);
            let half = ((ONE as int) + nz) / 2;
            let part = (e2 as int) * half / (ONE as int);
            let rest = Self::spec_octaves(
                perm,
                (((cx as int) * 2) % (COORD_SPAN as int)) as u64,
                (((cy as int) * 2) % (COORD_SPAN as int)) as u64,
                e2,
                (n - 1) as nat,
            );
            (part + rest.0, rest.1)
        }
    }

    /// The affine calibration map: with `o` octaves the amplitudes are
    /// `1/2, 1/4, ..., 1/2^o`, so the octave sum lies in `[0, M]` with
    /// `M = 1 - 1/2^o` (`m` here is `M` scaled by `ONE`, the amplitude left
    /// unspent by the octave loop subtracted from one). The map
    /// `(sum - (28/75) * M) / ((4/15) * M)` stretches the band where the sum
    /// concentrates onto `[0, 1]`, clamped; it reproduces the classic
    /// calibration `(sum - 0.35) / 0.25` at four octaves. Zero octaves leave
    /// `m` at zero and yield zero.
    pub closed spec fn spec_calibrate(sum: int, effect: u64) -> u64 {
        let m = ONE as int - effect as int;
        if m <= 0 {
            0
        } else {
            let num = 75 * sum;
            let off = 28 * m;
            if num <= off {
                0
            } else {
                let q = (num - off) * (ONE as int) / (20 * m);
                if q > ONE as int {
                    ONE
                } else {
                    q as u64
                }
            }
        }
    }

    /// The affine calibration map, executable form.
    fn calibrate(sum: u64, effect: u64) -> (value: u64)
        requires
            sum <= ONE,
            effect <= ONE,
        ensures
            value == Self::spec_calibrate(sum as int, effect),
            value <= ONE,
    {
        let m: u64 = ONE - effect;
        if m == 0 {
            return 0;
        }
        let num: u64 = 75 * sum;
        let off: u64 = 28 * m;
        if num <= off {
            return 0;
        }
        let top: u64 = num - off;
        proof {
            assert((top as int) * (ONE as int) <= 0xFFFF_FFFF_FFFF_FFFF * (ONE as int))
                by (nonlinear_arith)
                requires
                    top <= 0xFFFF_FFFF_FFFF_FFFFu64,
            ;
        }
        let scaled: u128 = (top as u128) * (ONE as u128);
        let den: u128 = 20 * (m as u128);
        let q: u128 = scaled / den;
        if q > ONE as u128 {
            ONE
        } else {
            q as u64
        }
    }

    /// The normalized sample at the given fixed-point coordinates: the octave
    /// sum, recentred by the affine calibration map and clamped into
    /// `[0, ONE]`.
    pub closed spec fn spec_get(perm: Seq<usize>, octaves: usize, x: u64, y: u64) -> u64 {
        let st = Self::spec_octaves(perm, x % COORD_SPAN, y % COORD_SPAN, ONE, octaves as nat);
        Self::spec_calibrate(st.0, st.1)
    }

    /// The normalized noise value at fixed-point coordinates `(x, y)`:
    /// always within `[0, ONE]`.
    #[verifier::loop_isolation(false)]
    #[verifier::rlimit(100)]
    pub fn get(&self, x: u64, y: u64) -> (value: u64)
        requires
            self.wf(),
        ensures
            value == Self::spec_get(self.perm@, self.octaves, x, y),
            value <= ONE,
    {
        let ghost total = Self::spec_octaves(
            self.perm@,
            x % COORD_SPAN,
            y % COORD_SPAN,
            ONE,
            self.octaves as nat,
        );
        let mut cx: u64 = x % COORD_SPAN;
        let mut cy: u64 = y % COORD_SPAN;
        let mut effect: u64 = ONE;
        let mut sum: u64 = 0;
        let mut i: usize = 0;
        while i < self.octaves
            invariant
                i <= self.octaves,
                cx < COORD_SPAN,
                cy < COORD_SPAN,
                sum + effect <= ONE,
                total.0 == sum + Self::spec_octaves(
                    self.perm@,
                    cx,
                    cy,
                    effect,
                    (self.octaves - i) as nat,
                ).0,
                total.1 == Self::spec_octaves(
                    self.perm@,
                    cx,
                    cy,
                    effect,
                    (self.octaves - i) as nat,
                ).1,
            decreases self.octaves - i,
        {
            let ghost rem = (self.octaves - i) as nat;
            let ghost cx0 = cx;
            let ghost cy0 = cy;
            let ghost e0 = effect;
            effect = effect / 2;
            let nz = noise_q(&self.perm, cx, cy);
            let one_i: i64 = ONE as i64;
            let half: u64 = ((one_i + nz) as u64) / 2;
            let part: u64 = qmul_down(half, effect);
            proof {
                let st = Self::spec_octaves(self.perm@, cx0, cy0, e0, rem);
                let nxt = Self::spec_octaves(
                    self.perm@,
                    (((cx0 as int) * 2) % (COORD_SPAN as int)) as u64,
                    (((cy0 as int) * 2) % (COORD_SPAN as int)) as u64,
                    effect,
                    (rem - 1) as nat,
                );
                assert(st.0 == (part as int) + nxt.0);
                assert(st.1 == nxt.1);
            }
            sum = sum + part;
            cx = (cx * 2) % COORD_SPAN;
            cy = (cy * 2) % COORD_SPAN;
            i = i + 1;
            proof {
                assert(sum + effect <= ONE);
                assert(total.0 == sum + Self::spec_octaves(
                    self.perm@,
                    cx,
                    cy,
                    effect,
                    (self.octaves - i) as nat,
                ).0);
                assert(total.1 == Self::spec_octaves(
                    self.perm@,
                    cx,
                    cy,
                    effect,
                    (self.octaves - i) as nat,
                ).1);
            }
        }
        proof {
            assert(Self::spec_octaves(self.perm@, cx, cy, effect, 0) == (0int, effect));
        }
        Self::calibrate(sum, effect)
    }
}

/// The `k`-th fixed-point power of `v`: one at exponent zero, and each
/// further step scales by `v`; for `v` within `[0, ONE]` the powers stay
/// within `[0, ONE]`.
pub closed spec fn spec_pow(v: u64, k: u32) -> u64
    decreases k,
{
    if k == 0 {
        ONE
    } else {
        ((spec_pow(v, (k - 1) as u32) as int) * (v as int) / (ONE as int)) as u64
    }
}

/// Powers of a fixed-point value within `[0, ONE]` stay within `[0, ONE]`.
pub proof fn lemma_pow_le_one(v: u64, k: u32)
    requires
        v <= ONE,
    ensures
        spec_pow(v, k) <= ONE,
    decreases k,
{
    if k == 0 {
    } else {
        lemma_pow_le_one(v, (k - 1) as u32);
        let p = spec_pow(v, (k - 1) as u32);
        assert((p as int) * (v as int) <= (ONE as int) * (ONE as int)) by (nonlinear_arith)
            requires
                p <= ONE,
                v <= ONE,
        ;
    }
}

/// The fixed-point power, executable form.
#[verifier::loop_isolation(false)]
fn pow_q(v: u64, k: u32) -> (r: u64)
    requires
        v <= ONE,
    ensures
        r == spec_pow(v, k),
        r <= ONE,
{
    let mut acc: u64 = ONE;
    let mut i: u32 = 0;
    while i < k
        invariant
            i <= k,
            acc == spec_pow(v, i),
            acc <= ONE,
        decreases k - i,
    {
        acc = qmul_down(acc, v);
        i = i + 1;
    }
    acc
}

/// How many thresholds the value strictly exceeds. With thresholds sorted in
/// ascending order this is the band the value falls into.
pub open spec fn spec_band(v: u64, thresholds: Seq<u64>) -> int
    decreases thresholds.len(),
{
    if thresholds.len() == 0 {
        0
    } else {
        (if v > thresholds[0] {
            1int
        } else {
            0int
        }) + spec_band(v, thresholds.drop_first())
    }
}

/// A value exceeds at least none and at most all of the thresholds.
pub proof fn lemma_band_bounds(v: u64, thresholds: Seq<u64>)
    ensures
        0 <= spec_band(v, thresholds) <= thresholds.len(),
    decreases thresholds.len(),
{
    if thresholds.len() == 0 {
    } else {
        lemma_band_bounds(v, thresholds.drop_first());
    }
}

/// Count the thresholds the value strictly exceeds.
#[verifier::loop_isolation(false)]
fn band_of(v: u64, thresholds: &Vec<u64>) -> (band: usize)
    ensures
        band == spec_band(v, thresholds@),
{
    let n = thresholds.len();
    proof {
        assert(thresholds@.subrange(0, n as int) =~= thresholds@);
    }
    let mut band: usize = 0;
    let mut i: usize = 0;
    while i < n
        invariant
            i <= n,
            band <= i,
            (band as int) + spec_band(v, thresholds@.subrange(i as int, n as int)) == spec_band(
                v,
                thresholds@,
            ),
        decreases n - i,
    {
        proof {
            let suf = thresholds@.subrange(i as int, n as int);
            assert(suf[0] == thresholds@[i as int]);
            assert(suf.drop_first() =~= thresholds@.subrange(i + 1, n as int));
            lemma_band_bounds(v, suf.drop_first());
        }
        if v > thresholds[i] {
            band = band + 1;
        }
        i = i + 1;
    }
    proof {
        assert(spec_band(v, thresholds@.subrange(n as int, n as int)) == 0);
    }
    band
}

/// The product `a * b / ONE` reduced into the lattice's span: scaling a
/// normalized coordinate by the frequency, and keeping only the forty bits
/// the lattice reads.
fn qmul_coord(a: u64, b: u64) -> (r: u64)
    ensures
        r == ((a as int) * (b as int) / (ONE as int)) % (COORD_SPAN as int),
        r < COORD_SPAN,
{
    proof {
        assert((a as int) * (b as int) <= 0xFFFF_FFFF_FFFF_FFFF * 0xFFFF_FFFF_FFFF_FFFF)
            by (nonlinear_arith)
            requires
                a <= 0xFFFF_FFFF_FFFF_FFFFu64,
                b <= 0xFFFF_FFFF_FFFF_FFFFu64,
        ;
    }
    let wide: u128 = (a as u128) * (b as u128);
    ((wide / (ONE as u128)) % (COORD_SPAN as u128)) as u64
}

/// The value handed to the classifier for the cell at flat index `pos` of a
/// grid of the given width: the cell's coordinates normalized by the width,
/// scaled by the frequency, sampled through the seeded field over the
/// configured octaves, and raised to the redistribution exponent.
///
/// Both coordinates are normalized by the width, not the height, following
/// the reference behaviour; on non-square grids this stretches the noise
/// pattern with the aspect ratio.
pub open spec fn spec_cell_value(seed: u32, options: crate::NoiseOptions, width: usize, pos: int) -> u64 {
    let w = width as int;
    let xq = (pos % w) * (ONE as int) / w;
    let yq = (pos / w) * (ONE as int) / w;
    let xf = ((xq * (options.frequency as int) / (ONE as int)) % (COORD_SPAN as int)) as u64;
    let yf = ((yq * (options.frequency as int) / (ONE as int)) % (COORD_SPAN as int)) as u64;
    spec_pow(
        PerlinNoise::spec_get(spec_table_full(seed), options.octaves, xf, yf),
        options.redistribution,
    )
}

/// The tile written to the cell at flat index `pos`: the band its noise
/// value falls into, mapped through the tile list.
pub open spec fn spec_cell_tile(
    seed: u32,
    options: crate::NoiseOptions,
    width: usize,
    thresholds: Seq<u64>,
    tiles: Seq<usize>,
    pos: int,
) -> usize {
    tiles[spec_band(spec_cell_value(seed, options, width, pos), thresholds)]
}

/// The flat index of a cell of a `w` by `h` grid lies in a row below `h`.
proof fn lemma_div_bound(pos: int, w: int, h: int)
    by (nonlinear_arith)
    requires
        0 < w,
        0 <= pos < w * h,
    ensures
        pos / w < h,
{
}

/// The normalized noise value fed to the classifier is always within
/// `[0, ONE]`, whatever the seed, octave count, redistribution exponent,
/// frequency and cell.
pub proof fn lemma_classifier_input_in_unit_interval(
    seed: u32,
    options: crate::NoiseOptions,
    width: usize,
    pos: int,
)
    ensures
        spec_cell_value(seed, options, width, pos) <= ONE,
{
    let w = width as int;
    let xq = (pos % w) * (ONE as int) / w;
    let yq = (pos / w) * (ONE as int) / w;
    let xf = ((xq * (options.frequency as int) / (ONE as int)) % (COORD_SPAN as int)) as u64;
    let yf = ((yq * (options.frequency as int) / (ONE as int)) % (COORD_SPAN as int)) as u64;
    let v = PerlinNoise::spec_get(spec_table_full(seed), options.octaves, xf, yf);
    assert(v <= ONE);
    lemma_pow_le_one(v, options.redistribution);
}

/// Determinism of the noise fill: two generators with the same seed, noise
/// options and width assign every cell the same tile, whatever their other
/// state; together with the contract of [`crate::Generator::spawn_perlin`],
/// a fixed configuration always produces the identical map.
pub proof fn lemma_noise_fill_deterministic(
    a: crate::Generator,
    b: crate::Generator,
    thresholds: Seq<u64>,
    tiles: Seq<usize>,
    pos: int,
)
    requires
        a.seed == b.seed,
        a.noise_options == b.noise_options,
        a.width == b.width,
    ensures
        spec_cell_tile(a.seed, a.noise_options, a.width, thresholds, tiles, pos) == spec_cell_tile(
            b.seed,
            b.noise_options,
            b.width,
            thresholds,
            tiles,
            pos,
        ),
{
}

impl crate::Generator {
    /// Generates gradient noise over the entire map.
    ///
    /// For every cell, the noise pipeline produces a fixed-point value within
    /// `[0, ONE_Q32]`; the cell receives `tiles[b]`, where the band `b` is
    /// the number of `thresholds` the value strictly exceeds. With
    /// `thresholds` sorted ascending, `tiles` maps each band between
    /// consecutive thresholds to a tile value, so one more tile than
    /// thresholds is needed.
    ///
    /// The whole fill is a pure function of the seed, the noise options, the
    /// grid width and the classifier, proved by its contract; see
    /// [`lemma_noise_fill_deterministic`]. With zero octaves every cell's
    /// noise value is zero, so the whole grid receives the lowest band's
    /// tile.
    #[verifier::loop_isolation(false)]
    pub fn spawn_perlin(self, thresholds: &Vec<u64>, tiles: &Vec<usize>) -> (result: Self)
        requires
            self.grid_wf(),
            self.width <= 0x1_0000_0000,
            self.height <= 0x1_0000_0000,
            tiles@.len() == thresholds@.len() + 1,
        ensures
            result == (Self { map: result.map, ..self }),
            result.map@.len() == self.map@.len(),
            forall|pos: int|
                0 <= pos < self.map@.len() ==> #[trigger] result.map@[pos] == spec_cell_tile(
                    self.seed,
                    self.noise_options,
                    self.width,
                    thresholds@,
                    tiles@,
                    pos,
                ),
    {
        let field = PerlinNoise::from_seed(self.seed, self.noise_options.octaves);
        let freq = self.noise_options.frequency;
        let redis = self.noise_options.redistribution;
        let width = self.width;
        let mut map = self.map;
        let n = map.len();
        let mut pos: usize = 0;
        while pos < n
            invariant
                pos <= n,
                n == map@.len(),
                forall|p: int|
                    0 <= p < pos ==> #[trigger] map@[p] == spec_cell_tile(
                        self.seed,
                        self.noise_options,
                        self.width,
                        thresholds@,
                        tiles@,
                        p,
                    ),
                forall|p: int| pos <= p < n ==> #[trigger] map@[p] == self.map@[p],
            decreases n - pos,
        {
            proof {
                if width == 0 {
                    assert(width * self.height == 0);
                }
                lemma_div_bound(pos as int, width as int, self.height as int);
            }
            let x = pos % width;
            let y = pos / width;
            let xq: u64 = ((x as u64) * ONE) / (width as u64);
            let yq: u64 = ((y as u64) * ONE) / (width as u64);
            let xf = qmul_coord(xq, freq);
            let yf = qmul_coord(yq, freq);
            let v = field.get(xf, yf);
            let vr = pow_q(v, redis);
            let band = band_of(vr, thresholds);
            proof {
                lemma_band_bounds(vr, thresholds@);
            }
            let tile = tiles[band];
            map.set(pos, tile);
            proof {
                assert(map@[pos as int] == spec_cell_tile(
                    self.seed,
                    self.noise_options,
                    self.width,
                    thresholds@,
                    tiles@,
                    pos as int,
                ));
            }
            pos = pos + 1;
        }
        Self {
            map,
            width: self.width,
            height: self.height,
            noise_options: self.noise_options,
            rooms: self.rooms,
            seed: self.seed,
        }
    }
}

} // verus!
