use procedural_generation::{ConfigError, Generator, NoiseOptions, PerlinNoise, Size, ONE_Q32};
use rand::Rng;

fn q32(v: f64) -> u64 {
    (v * 4294967296.0) as u64
}

/// The classifier of the reference examples: three bands split at 0.33 and
/// 0.66, mapped to tiles 0, 1 and 2.
fn three_bands() -> (Vec<u64>, Vec<usize>) {
    (vec![q32(0.33), q32(0.66)], vec![0, 1, 2])
}

// Test for both seeding and implementation changes.
#[test]
fn perlin() {
    let (thresholds, tiles) = three_bands();
    let generator = Generator::new().with_size(40, 10).with_seed(0).spawn_perlin(
        &thresholds,
        &tiles,
    );
    let output = vec![
        1, 1, 1, 1, 1, 1, 1, 1, 1, 1, 1, 1, 2, 2, 2, 2, 2, 2, 2, 2, 2, 2, 2, 2, 2, 2, 2, 2, 2, 2, 2,
        2, 2, 2, 2, 2, 2, 1, 1, 1, 1, 1, 1, 1, 1, 1, 1, 1, 1, 1, 2, 2, 2, 2, 2, 2, 2, 2, 2, 2, 2, 2,
        2, 2, 2, 2, 2, 2, 2, 2, 2, 2, 2, 2, 2, 2, 2, 1, 1, 1, 1, 1, 1, 1, 1, 1, 1, 1, 1, 2, 2, 2, 2,
        2, 2, 2, 2, 2, 2, 2, 2, 2, 2, 2, 2, 2, 2, 2, 2, 2, 2, 2, 2, 2, 2, 2, 1, 1, 1, 1, 1, 1, 1, 1,
        1, 1, 1, 2, 2, 2, 2, 2, 2, 2, 2, 2, 2, 2, 2, 2, 2, 2, 2, 2, 2, 2, 2, 2, 2, 2, 2, 2, 2, 2, 2,
        2, 1, 1, 1, 1, 2, 2, 2, 2, 2, 2, 2, 2, 2, 2, 2, 2, 2, 2, 2, 2, 2, 2, 2, 2, 2, 2, 2, 2, 2, 2,
        2, 2, 2, 2, 2, 2, 2, 2, 2, 2, 1, 1, 1, 1, 2, 2, 2, 2, 2, 2, 2, 2, 2, 2, 2, 2, 2, 2, 2, 2, 2,
        2, 2, 2, 2, 2, 2, 2, 2, 2, 2, 2, 2, 2, 2, 2, 2, 2, 2, 2, 1, 1, 1, 1, 2, 2, 2, 2, 2, 2, 2, 2,
        2, 2, 2, 2, 2, 2, 2, 2, 2, 2, 2, 2, 2, 2, 2, 2, 2, 2, 2, 2, 2, 2, 2, 2, 2, 2, 2, 2, 1, 1, 1,
        1, 2, 2, 2, 2, 2, 2, 2, 2, 2, 2, 2, 2, 2, 2, 2, 2, 2, 2, 2, 2, 2, 2, 2, 2, 2, 2, 2, 2, 2, 2,
        2, 2, 2, 2, 2, 1, 1, 1, 1, 1, 2, 2, 2, 2, 2, 2, 2, 2, 2, 2, 2, 2, 2, 2, 2, 2, 2, 2, 2, 2, 2,
        2, 2, 2, 2, 2, 2, 2, 2, 2, 2, 2, 2, 2, 1, 1, 1, 1, 1, 1, 2, 2, 2, 2, 2, 2, 2, 2, 2, 2, 2, 2,
        2, 2, 2, 2, 2, 2, 2, 2, 2, 2, 2, 2, 2, 2, 2, 2, 2, 2, 2, 2, 2, 2, 1, 1, 1, 1, 1, 1
    ];
    assert_eq!(generator.map, output);
}

#[test]
fn rooms() {
    let size = Size::new((4, 4), (10, 10));
    let generator = Generator::new()
        .with_size(40, 10)
        .with_seed(0)
        .spawn_rooms(1, 5, &size)
        .unwrap();
    let output = vec![
        0, 0, 0, 0, 0, 0, 0, 0, 0, 0, 0, 0, 0, 0, 0, 0, 0, 0, 0, 0, 0, 0, 0, 0, 0, 0, 0, 0, 0, 1, 1,
        1, 1, 1, 1, 1, 0, 0, 0, 0, 0, 0, 0, 0, 0, 1, 1, 1, 1, 0, 0, 0, 0, 0, 0, 0, 0, 0, 0, 0, 0, 0,
        0, 0, 0, 0, 0, 0, 0, 1, 1, 1, 1, 1, 1, 1, 0, 0, 0, 0, 0, 0, 0, 0, 0, 1, 1, 1, 1, 0, 0, 0, 0,
        0, 0, 0, 0, 0, 0, 0, 0, 0, 0, 0, 0, 0, 0, 0, 0, 1, 1, 1, 1, 1, 1, 1, 0, 0, 0, 0, 0, 0, 0, 0,
        0, 1, 1, 1, 1, 0, 0, 0, 0, 0, 0, 0, 0, 0, 1, 1, 1, 1, 1, 0, 0, 0, 0, 0, 0, 1, 1, 1, 1, 1, 1,
        1, 0, 0, 0, 0, 0, 0, 0, 0, 0, 1, 1, 1, 1, 0, 0, 0, 0, 0, 0, 0, 0, 0, 1, 1, 1, 1, 1, 0, 0, 0,
        0, 0, 0, 1, 1, 1, 1, 1, 1, 1, 0, 0, 0, 0, 0, 0, 0, 0, 0, 1, 1, 1, 1, 0, 0, 0, 0, 0, 0, 0, 0,
        0, 1, 1, 1, 1, 1, 0, 0, 0, 0, 0, 0, 0, 0, 0, 0, 0, 0, 0, 0, 0, 0, 0, 0, 0, 0, 0, 0, 1, 1, 1,
        1, 0, 0, 0, 0, 0, 0, 0, 0, 0, 1, 1, 1, 1, 1, 0, 0, 0, 0, 0, 0, 0, 0, 0, 0, 0, 0, 0, 0, 0, 0,
        0, 0, 0, 0, 0, 0, 0, 0, 0, 0, 0, 0, 0, 0, 0, 0, 0, 0, 0, 1, 1, 1, 1, 1, 0, 0, 0, 0, 0, 0, 0,
        0, 0, 0, 0, 0, 0, 0, 0, 0, 0, 0, 0, 0, 0, 0, 0, 0, 0, 0, 0, 0, 0, 0, 0, 0, 0, 0, 0, 1, 1, 1,
        1, 1, 0, 0, 0, 0, 0, 0, 0, 0, 0, 0, 0, 0, 0, 0, 0, 0, 0, 0, 0, 0, 0, 0, 0, 0, 0, 0, 0, 0, 0,
        0, 0, 0, 0, 0, 0, 1, 1, 1, 1, 1, 0, 0, 0, 0, 0, 0, 0, 0, 0, 0, 0, 0, 0, 0, 0, 0, 0
    ];
    assert_eq!(generator.map, output);
}

#[test]
fn grid_size_invariant() {
    let g = Generator::new().with_seed(7).with_size(13, 9);
    assert_eq!(g.width, 13);
    assert_eq!(g.height, 9);
    assert_eq!(g.map.len(), 13 * 9);
    assert!(g.map.iter().all(|&v| v == 0));

    // Resizing discards prior contents.
    let size = Size::new((2, 2), (5, 5));
    let g = g.spawn_rooms(3, 4, &size).unwrap().with_size(6, 4);
    assert_eq!(g.map.len(), 6 * 4);
    assert!(g.map.iter().all(|&v| v == 0));
}

fn intersects(a: &(usize, usize, usize, usize), b: &(usize, usize, usize, usize)) -> bool {
    a.0 <= b.2 && a.2 >= b.0 && a.1 <= b.3 && a.3 >= b.1
}

#[test]
fn rooms_properties() {
    let size = Size::new((4, 4), (10, 10));
    let g = Generator::new()
        .with_size(40, 10)
        .with_seed(0)
        .spawn_rooms(1, 5, &size)
        .unwrap();
    // Best-effort placement: at most the requested count.
    assert!(g.rooms.len() <= 5);
    assert!(g.rooms.len() >= 1);
    let rects: Vec<(usize, usize, usize, usize)> =
        g.rooms.iter().map(|r| (r.x, r.y, r.x2, r.y2)).collect();
    for (i, a) in rects.iter().enumerate() {
        // Containment within [0, width) x [0, height).
        assert!(a.2 <= 40 && a.3 <= 10);
        for (j, b) in rects.iter().enumerate() {
            if i != j {
                assert!(!intersects(a, b));
            }
        }
    }
    // Accumulation across calls: a second call avoids the first call's rooms.
    let before = g.rooms.len();
    let g = g.spawn_rooms(2, 5, &size).unwrap();
    assert!(g.rooms.len() >= before && g.rooms.len() <= before + 5);
    let rects: Vec<(usize, usize, usize, usize)> =
        g.rooms.iter().map(|r| (r.x, r.y, r.x2, r.y2)).collect();
    for (i, a) in rects.iter().enumerate() {
        for (j, b) in rects.iter().enumerate() {
            if i != j {
                assert!(!intersects(a, b));
            }
        }
    }
}

#[test]
fn blob_connectivity() {
    // One seed per call: all painted cells must form one 4-connected
    // component around the seed's origin.
    for seed in 0..6u32 {
        let (w, h) = (24usize, 16usize);
        let g = Generator::new()
            .with_size(w, h)
            .with_seed(seed)
            .spawn_blobs(7, 1)
            .unwrap();
        let painted: Vec<usize> = (0..w * h).filter(|&i| g.map[i] == 7).collect();
        assert!(!painted.is_empty());
        // Column zero only ever holds the origin itself.
        // Breadth-first search from any painted cell must reach all of them.
        let mut seen = vec![false; w * h];
        let mut queue = vec![painted[0]];
        seen[painted[0]] = true;
        while let Some(c) = queue.pop() {
            let x = c % w;
            let y = c / w;
            let mut push = |n: usize| {
                if g.map[n] == 7 && !seen[n] {
                    seen[n] = true;
                    queue.push(n);
                }
            };
            if x > 0 {
                push(c - 1);
            }
            if x + 1 < w {
                push(c + 1);
            }
            if y > 0 {
                push(c - w);
            }
            if y + 1 < h {
                push(c + w);
            }
        }
        for &c in &painted {
            assert!(seen[c], "painted cell {} disconnected for seed {}", c, seed);
        }
    }
}

#[test]
fn noise_range_property() {
    let mut rng: rand::rngs::StdRng = rand::SeedableRng::seed_from_u64(12345);
    for _ in 0..200 {
        let seed: u32 = rng.gen();
        let octaves: usize = rng.gen_range(0..9);
        let field = PerlinNoise::from_seed(seed, octaves);
        let x: u64 = rng.gen();
        let y: u64 = rng.gen();
        let v = field.get(x, y);
        assert!(v <= ONE_Q32, "noise value {} out of range", v);
    }
}

#[test]
fn noise_fill_deterministic() {
    let (thresholds, tiles) = three_bands();
    let options = NoiseOptions { frequency: 4 * ONE_Q32, redistribution: 2, octaves: 4 };
    let a = Generator::new()
        .with_size(30, 20)
        .with_seed(99)
        .with_options(options)
        .spawn_perlin(&thresholds, &tiles);
    let b = Generator::new()
        .with_size(30, 20)
        .with_seed(99)
        .with_options(options)
        .spawn_perlin(&thresholds, &tiles);
    assert_eq!(a.map, b.map);
    assert!(a.map.iter().all(|&v| v <= 2));
}

#[test]
fn empty_grid_rejected() {
    let size = Size::new((1, 1), (2, 2));
    let err = Generator::new().with_seed(1).spawn_rooms(1, 3, &size).unwrap_err();
    assert_eq!(err, ConfigError::EmptyGrid);
}

#[test]
fn inverted_size_bounds_rejected() {
    let size = Size::new((5, 5), (5, 5));
    let err = Generator::new()
        .with_size(20, 20)
        .with_seed(1)
        .spawn_rooms(1, 3, &size)
        .unwrap_err();
    assert_eq!(err, ConfigError::InvalidSizeBounds);
}

#[test]
fn oversized_room_rejected() {
    let size = Size::new((4, 4), (30, 6));
    let err = Generator::new()
        .with_size(20, 20)
        .with_seed(1)
        .spawn_rooms(1, 3, &size)
        .unwrap_err();
    assert_eq!(err, ConfigError::RoomTooLarge);
}

#[test]
fn blob_empty_grid_rejected() {
    let err = Generator::new().with_seed(1).spawn_blobs(7, 1).unwrap_err();
    assert_eq!(err, ConfigError::EmptyGrid);
}

#[test]
fn get_set_roundtrip() {
    let mut g = Generator::new().with_size(8, 5).with_seed(0);
    g.set(3, 2, 42);
    assert_eq!(g.get(3, 2), 42);
    assert_eq!(g.get(2, 3), 0);
    assert_eq!(g.map[3 + 2 * 8], 42);
}

#[test]
fn get_2d_map_shape() {
    let mut g = Generator::new().with_size(4, 3).with_seed(0);
    g.set(1, 2, 9);
    let rows = g.get_2d_map();
    assert_eq!(rows.len(), 3);
    for row in &rows {
        assert_eq!(row.len(), 4);
    }
    assert_eq!(rows[2][1], 9);
    assert_eq!(rows[0][0], 0);
}

#[test]
fn room_at_largest_allowed_size() {
    // The exclusive maximum may exceed the grid edge by exactly one: the
    // largest sampled extent then equals the grid. The first attempt of an
    // empty history is always accepted, and a grid-sized room forces every
    // later candidate to collide.
    let size = Size::new((10, 8), (11, 9));
    let g = Generator::new()
        .with_size(10, 8)
        .with_seed(3)
        .spawn_rooms(1, 3, &size)
        .unwrap();
    assert_eq!(g.rooms.len(), 1);
    assert!(g.map.iter().all(|&v| v == 1));
    let r = &g.rooms[0];
    assert_eq!((r.x, r.y, r.width, r.height), (0, 0, 10, 8));
}

#[test]
fn threshold_is_strict() {
    // Bands count strictly exceeded thresholds, and no cell value exceeds
    // ONE_Q32, so a threshold at ONE_Q32 keeps every cell in the lowest band.
    let thresholds = vec![ONE_Q32];
    let tiles = vec![4, 9];
    let g = Generator::new()
        .with_size(12, 7)
        .with_seed(11)
        .spawn_perlin(&thresholds, &tiles);
    assert!(g.map.iter().all(|&v| v == 4));
}

#[test]
fn zero_octaves_give_lowest_band() {
    let (thresholds, tiles) = three_bands();
    let options = NoiseOptions { octaves: 0, ..NoiseOptions::default() };
    let g = Generator::new()
        .with_size(9, 5)
        .with_seed(2)
        .with_options(options)
        .spawn_perlin(&thresholds, &tiles);
    assert!(g.map.iter().all(|&v| v == 0));
}

#[test]
fn noise_options_default() {
    let o = NoiseOptions::default();
    assert_eq!(o.frequency, ONE_Q32);
    assert_eq!(o.redistribution, 1);
    assert_eq!(o.octaves, 1);
    let n = NoiseOptions::new();
    assert_eq!(n.frequency, o.frequency);
    assert_eq!(n.redistribution, o.redistribution);
    assert_eq!(n.octaves, o.octaves);
}

#[test]
fn perlin_field_seeded() {
    // The field is a pure function of the seed: equal seeds agree everywhere,
    // and the shuffled table makes different seeds disagree somewhere.
    let a = PerlinNoise::from_seed(5, 4);
    let b = PerlinNoise::from_seed(5, 4);
    let c = PerlinNoise::from_seed(6, 4);
    assert_eq!(a.perm, b.perm);
    assert_ne!(a.perm, c.perm);
    let (x, y) = (3 * ONE_Q32 / 2, 7 * ONE_Q32 / 3);
    assert_eq!(a.get(x, y), b.get(x, y));
    assert_eq!(a.octaves, 4);
    assert_eq!(a.perm.len(), 512);
    let mut counts = [0usize; 256];
    for &v in a.perm.iter() {
        assert!(v < 256);
        counts[v] += 1;
    }
    // The duplicated table holds each byte value exactly twice: a shuffle
    // permutes, it never repeats or drops entries.
    assert!(counts.iter().all(|&k| k == 2));
}
