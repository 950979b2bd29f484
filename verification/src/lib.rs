//! Procedurally generated 2D tile maps: a rectangular grid of tile values
//! filled by classified gradient noise, non-overlapping rectangular rooms,
//! and stochastic organic blobs grown from random seed cells.
//!
//! Fractional quantities (noise values, frequencies, classifier thresholds)
//! are carried as fixed-point numbers: integer numerators over the
//! denominator [`ONE_Q32`].

use vstd::prelude::*;

pub mod blobs;
pub mod perlinnoise;
mod rng;
pub mod rooms;

pub use perlinnoise::PerlinNoise;

pub use rooms::Room;
pub use rooms::Size;

verus! {

/// A configuration that would force a generation algorithm off the grid or
/// into an empty sampling range is rejected before any cell is touched.
#[derive(Debug, Clone, Copy, PartialEq, Eq, Structural)]
pub enum ConfigError {
    /// The grid has no cells to draw from.
    EmptyGrid,
    /// A minimum room extent is not below the corresponding maximum.
    InvalidSizeBounds,
    /// The largest sampled room extent would not fit in the grid.
    RoomTooLarge,
}

/// A fixed-point value equal to one: fractions in this crate are carried as
/// integer numerators over this denominator.
pub const ONE_Q32: u64 = 0x1_0000_0000;

/// Options for how gradient noise is generated.
///
/// See [`Generator::spawn_perlin`] for where each option enters the pipeline.
#[derive(Debug, Clone, Copy, PartialEq, Eq, Structural)]
pub struct NoiseOptions {
    /// Scale applied to the normalized cell coordinates before sampling, as a
    /// fixed-point number over [`ONE_Q32`]. Higher frequency adds a zooming
    /// effect to the noise. Default is `ONE_Q32` (a scale of one); zero
    /// collapses every coordinate to zero and yields a uniform map.
    pub frequency: u64,
    /// Exponent applied to the normalized noise value before classification.
    /// Values above one exaggerate peaks and valleys. Default is 1.
    pub redistribution: u32,
    /// Number of noise layers summed per sample, each at doubled frequency
    /// and halved amplitude. More octaves increase variety. Default is 1.
    pub octaves: usize,
}

impl Default for NoiseOptions {
    fn default() -> (result: Self)
        ensures
            result.frequency == ONE_Q32,
            result.redistribution == 1,
            result.octaves == 1,
    {
        Self { frequency: ONE_Q32, redistribution: 1, octaves: 1 }
    }
}

impl NoiseOptions {
    /// Same as `default()`.
    pub fn new() -> (result: Self)
        ensures
            result.frequency == ONE_Q32,
            result.redistribution == 1,
            result.octaves == 1,
    {
        Self::default()
    }
}

/// The foundation of this crate: a grid of tile values together with the
/// configuration that the generation algorithms read.
///
/// Tile values are plain integers chosen by the caller; zero conventionally
/// means "empty".
#[derive(Debug)]
pub struct Generator {
    /// The flat tile buffer, row-major: the cell at `(x, y)` is
    /// `map[x + y * width]`.
    pub map: Vec<usize>,
    /// Number of columns.
    pub width: usize,
    /// Number of rows.
    pub height: usize,
    /// Options for noise generation.
    pub noise_options: NoiseOptions,
    /// Every room accepted so far; later placement calls avoid overlapping
    /// these as well.
    pub rooms: Vec<Room>,
    /// Seed for every generation algorithm; explicit via [`Self::with_seed`],
    /// random otherwise.
    pub seed: u32,
}

impl Generator {
    /// The grid buffer always holds exactly `width * height` cells.
    pub open spec fn grid_wf(self) -> bool {
        self.map@.len() == self.width * self.height
    }

    /// Construct a new instance with an empty grid and a random seed.
    pub fn new() -> (result: Self)
        ensures
            result.map@ == (Seq::<usize>::empty()),
            result.width == 0,
            result.height == 0,
            result.noise_options == (NoiseOptions { frequency: ONE_Q32, redistribution: 1, octaves: 1 }),
            result.rooms@ == (Seq::<Room>::empty()),
            result.grid_wf(),
            result.rooms_ok(),
            result.rooms_in_grid(),
    {
        Self {
            map: Vec::new(),
            width: 0,
            height: 0,
            noise_options: NoiseOptions::default(),
            rooms: Vec::new(),
            seed: rng::random_seed(),
        }
    }

    /// Set the seed for generation, useful for reproducing results; the seed
    /// is random otherwise.
    pub fn with_seed(self, seed: u32) -> (result: Self)
        ensures
            result == (Self { seed, ..self }),
    {
        Self { seed, ..self }
    }

    /// Changes how noise is generated; different values make for much more
    /// interesting noise.
    pub fn with_options(self, options: NoiseOptions) -> (result: Self)
        ensures
            result == (Self { noise_options: options, ..self }),
    {
        Self { noise_options: options, ..self }
    }

    /// Sets the size of the map, clearing the current map state: every cell
    /// of the new grid is zero. The requested cell count must fit in a
    /// `usize`.
    pub fn with_size(self, width: usize, height: usize) -> (result: Self)
        requires
            width * height <= usize::MAX,
        ensures
            result == (Self { map: result.map, width, height, ..self }),
            result.map@ == Seq::new((width * height) as nat, |i: int| 0usize),
            result.grid_wf(),
    {
        let n = width * height;
        let mut map: Vec<usize> = Vec::new();
        let mut i: usize = 0;
        while i < n
            invariant
                i <= n,
                map@ == Seq::new(i as nat, |j: int| 0usize),
            decreases n - i,
        {
            map.push(0);
            i = i + 1;
            proof {
                assert(map@ =~= Seq::new(i as nat, |j: int| 0usize));
            }
        }
        Self { map, width, height, ..self }
    }

    /// Returns the map value at the given `(x, y)` coordinate.
    pub fn get(&self, x: usize, y: usize) -> (value: usize)
        requires
            self.grid_wf(),
            x < self.width,
            y < self.height,
        ensures
            value == self.map@[x + y * self.width],
    {
        let n = self.map.len();
        proof {
            lemma_row_major_index_in_range(self.width as int, self.height as int, x as int, y as int);
        }
        self.map[x + y * self.width]
    }

    /// Same as `get(...)`, except it sets the value.
    pub fn set(&mut self, x: usize, y: usize, value: usize)
        requires
            old(self).grid_wf(),
            x < old(self).width,
            y < old(self).height,
        ensures
            final(self).map@ == old(self).map@.update(x + y * old(self).width, value),
            *final(self) == (Generator { map: final(self).map, ..*old(self) }),
            final(self).grid_wf(),
    {
        let n = self.map.len();
        proof {
            lemma_row_major_index_in_range(self.width as int, self.height as int, x as int, y as int);
        }
        let i = x + y * self.width;
        self.map.set(i, value);
    }

    /// Represent the current map as a 2d vector: one inner vector per row,
    /// each of length `width`.
    pub fn get_2d_map(&self) -> (rows: Vec<Vec<usize>>)
        requires
            self.grid_wf(),
            self.width >= 1,
        ensures
            rows@.len() == self.height,
            forall|y: int| 0 <= y < self.height ==> #[trigger] rows@[y]@.len() == self.width,
            forall|y: int, x: int|
                0 <= y < self.height && 0 <= x < self.width
                    ==> #[trigger] rows@[y]@[x] == self.map@[x + y * self.width],
    {
        let n = self.map.len();
        let mut rows: Vec<Vec<usize>> = Vec::new();
        let mut y: usize = 0;
        while y < self.height
            invariant
                self.grid_wf(),
                n == self.map@.len(),
                self.width >= 1,
                y <= self.height,
                rows@.len() == y,
                forall|r: int| 0 <= r < y ==> #[trigger] rows@[r]@.len() == self.width,
                forall|r: int, x: int|
                    0 <= r < y && 0 <= x < self.width
                        ==> #[trigger] rows@[r]@[x] == self.map@[x + r * self.width],
            decreases self.height - y,
        {
            let mut row: Vec<usize> = Vec::new();
            let mut x: usize = 0;
            while x < self.width
                invariant
                    self.grid_wf(),
                    n == self.map@.len(),
                    y < self.height,
                    x <= self.width,
                    row@.len() == x,
                    forall|c: int| 0 <= c < x ==> #[trigger] row@[c] == self.map@[c + y * self.width],
                decreases self.width - x,
            {
                proof {
                    lemma_row_major_index_in_range(
                        self.width as int,
                        self.height as int,
                        x as int,
                        y as int,
                    );
                }
                row.push(self.map[x + y * self.width]);
                x = x + 1;
            }
            rows.push(row);
            y = y + 1;
        }
        rows
    }
}

/// In a `width` by `height` row-major grid, the flat index of an in-range
/// coordinate pair is in range.
pub(crate) proof fn lemma_row_major_index_in_range(width: int, height: int, x: int, y: int)
    by (nonlinear_arith)
    requires
        0 <= x < width,
        0 <= y < height,
    ensures
        0 <= x + y * width < width * height,
{
}

} // verus!
