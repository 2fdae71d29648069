use cpu_panel::compose::{compose, Color, LitPixel, PERCENT_100_BITS};
use cpu_panel::geometry::{generate_indexes, THREAD_COUNT, TILE_LEN};
use cpu_panel::ingest::Ingestor;
use cpu_panel::snapshot::{CPUUsage, Packet};
use rand::{Rng, SeedableRng};

fn usage(id: u8, u: f32) -> CPUUsage {
    CPUUsage { id, usage_bits: u.to_bits() }
}

fn packet(cores: &[CPUUsage]) -> Packet {
    let mut p = Packet::new();
    for &c in cores {
        assert!(p.push(c));
    }
    p
}

fn random_draws(n: usize, seed: u8) -> Vec<u32> {
    let mut rng = rand::rngs::SmallRng::from_seed([seed; 32]);
    (0..n).map(|_| rng.gen_range(0f32..100f32).to_bits()).collect()
}

fn tile_of(id: u8, color: Color) -> Vec<LitPixel> {
    generate_indexes(id as usize)
        .iter()
        .map(|&index| LitPixel { index, color })
        .collect()
}

#[test]
fn hundred_percent_constant_matches_float() {
    assert_eq!(PERCENT_100_BITS, 100f32.to_bits());
}

#[test]
fn idle_core_lights_nothing() {
    let p = packet(&[usage(3, 0.0)]);
    for seed in 0..5 {
        assert!(compose(&p, &random_draws(TILE_LEN, seed)).is_empty());
    }
}

#[test]
fn busy_core_lights_whole_tile() {
    let p = packet(&[usage(3, 100.0)]);
    for seed in 0..5 {
        assert_eq!(compose(&p, &random_draws(TILE_LEN, seed)), tile_of(3, Color::Green));
    }
}

#[test]
fn second_half_is_red() {
    let p = packet(&[usage(12, 100.0)]);
    assert_eq!(compose(&p, &random_draws(TILE_LEN, 1)), tile_of(12, Color::Red));
}

#[test]
fn draws_below_usage_light_their_pixels() {
    let p = packet(&[usage(1, 50.0)]);
    let draws: Vec<u32> = (0..TILE_LEN)
        .map(|k| if k % 2 == 0 { 10f32.to_bits() } else { 60f32.to_bits() })
        .collect();
    let tile = generate_indexes(1);
    let expected: Vec<LitPixel> = (0..TILE_LEN)
        .filter(|k| k % 2 == 0)
        .map(|k| LitPixel { index: tile[k], color: Color::Green })
        .collect();
    assert_eq!(compose(&p, &draws), expected);
    let at = vec![50f32.to_bits(); TILE_LEN];
    assert!(compose(&p, &at).is_empty());
}

#[test]
fn negative_or_nan_usage_lights_nothing() {
    let p = packet(&[usage(0, -5.0), usage(1, f32::NAN), usage(2, -0.0)]);
    assert!(compose(&p, &vec![0u32; 3 * TILE_LEN]).is_empty());
}

#[test]
fn infinite_usage_lights_everything() {
    let p = packet(&[usage(0, f32::INFINITY)]);
    assert_eq!(compose(&p, &random_draws(TILE_LEN, 2)).len(), TILE_LEN);
}

#[test]
fn end_to_end_single_busy_core() {
    let cores: Vec<(u8, f32)> = (0..THREAD_COUNT as u8)
        .map(|i| (i, if i == 0 { 100.0 } else { 0.0 }))
        .collect();
    let bytes = postcard::to_allocvec(&cores).unwrap();
    let mut ing = Ingestor::new();
    assert!(ing.feed(&bytes));
    for seed in 0..10 {
        let draws = random_draws(THREAD_COUNT * TILE_LEN, seed);
        let lit = compose(ing.current(), &draws);
        assert_eq!(lit.len(), 160);
        assert_eq!(lit, tile_of(0, Color::Green));
    }
}
