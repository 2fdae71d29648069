//! Panel geometry and the mapping from a core index to the pixels of its tile.

use vstd::prelude::*;

verus! {

/// Panel width in pixels.
pub const RES_WIDTH: usize = 64;

/// Panel height in pixels.
pub const RES_HEIGHT: usize = 32;

/// Number of pixels on the panel.
pub const TOTAL_LEDS: usize = 2048;

/// Width of one core's tile in pixels.
pub const CPU_WIDTH: usize = 10;

/// Height of one core's tile in pixels.
pub const CPU_HEIGHT: usize = 16;

/// Number of pixels in one tile.
pub const TILE_LEN: usize = 160;

/// Number of tiles side by side in one half of the panel.
pub const TILES_PER_HALF: usize = 6;

/// Number of logical threads the display is built for; the first half is
/// drawn in one colour, the rest in another.
pub const THREAD_COUNT: usize = 24;

/// First linear pixel index of the half of the panel that `cpu` is drawn in.
pub open spec fn half_base(cpu: nat) -> nat {
    if cpu < TILES_PER_HALF {
        0
    } else {
        (TOTAL_LEDS / 2) as nat
    }
}

/// First column of the band of columns that `cpu`'s tile occupies.
pub open spec fn band_start(cpu: nat) -> nat {
    (cpu % TILES_PER_HALF as nat) * CPU_WIDTH as nat
}

/// Whether pixel `i` lies in the column band of `cpu`'s tile.
pub open spec fn in_band(cpu: nat, i: nat) -> bool {
    band_start(cpu) <= i % (RES_WIDTH as nat) < band_start(cpu) + CPU_WIDTH
}

/// The `k`-th pixel of `cpu`'s tile, counted row by row from its top left.
pub open spec fn tile_index(cpu: nat, k: nat) -> nat {
    half_base(cpu) + (k / CPU_WIDTH as nat) * RES_WIDTH as nat + band_start(cpu) + k
        % CPU_WIDTH as nat
}

/// The whole tile of `cpu`, in increasing pixel order.
pub open spec fn tile_seq(cpu: nat) -> Seq<usize> {
    Seq::new(TILE_LEN as nat, |k: int| tile_index(cpu, k as nat) as usize)
}

proof fn lemma_tile_index_in_band(cpu: nat, k: nat)
    ensures
        in_band(cpu, tile_index(cpu, k)),
        tile_index(cpu, k) % (RES_WIDTH as nat) == band_start(cpu) + k % (CPU_WIDTH as nat),
        tile_index(cpu, k) / (RES_WIDTH as nat) == half_base(cpu) / (RES_WIDTH as nat) + k / (
        CPU_WIDTH as nat),
{
    let b = half_base(cpu);
    let m = band_start(cpu);
    let c = k % 10;
    let q = k / 10;
    assert(b % 64 == 0);
    assert(m + c < 64);
    assert((b + q * 64 + m + c) % 64 == m + c && (b + q * 64 + m + c) / 64 == b / 64 + q)
        by (nonlinear_arith)
        requires
            b % 64 == 0,
            m + c < 64,
    ;
}

proof fn lemma_tile_index_increasing(cpu: nat, k1: nat, k2: nat)
    requires
        k1 < k2,
    ensures
        tile_index(cpu, k1) < tile_index(cpu, k2),
{
    let q1 = k1 / 10;
    let q2 = k2 / 10;
    let c1 = k1 % 10;
    let c2 = k2 % 10;
    assert(q1 < q2 || (q1 == q2 && c1 < c2));
    assert(q1 * 64 + c1 < q2 * 64 + c2) by (nonlinear_arith)
        requires
            q1 < q2 || (q1 == q2 && c1 < c2),
            c1 < 10,
            c2 < 10,
    ;
}

/// Position within `cpu`'s tile of a pixel of its band.
spec fn band_position(cpu: nat, i: nat) -> nat {
    (((i - half_base(cpu)) as nat / 64) * 10 + (i % 64 - band_start(cpu))) as nat
}

/// A pixel in the column band of `cpu`, at or after the start of its half,
/// is some pixel of the tile (counted past the tile's end if need be).
proof fn lemma_band_pixel_is_tile_index(cpu: nat, i: nat)
    requires
        half_base(cpu) <= i,
        in_band(cpu, i),
    ensures
        tile_index(cpu, band_position(cpu, i)) == i,
{
    let b = half_base(cpu);
    let m = band_start(cpu);
    let o = (i - b) as nat;
    let q = o / 64;
    let r = i % 64;
    assert(b % 64 == 0);
    assert(o % 64 == r) by (nonlinear_arith)
        requires
            b % 64 == 0,
            o == i - b,
            r == i % 64,
    ;
    let t = q * 10 + (r - m) as nat;
    assert(t / 10 == q && t % 10 == r - m) by (nonlinear_arith)
        requires
            t == q * 10 + (r - m),
            0 <= r - m < 10,
    ;
    assert(o == q * 64 + r) by (nonlinear_arith)
        requires
            q == o / 64,
            r == o % 64,
    ;
}

proof fn lemma_tile_index_bound(cpu: nat, k: nat)
    requires
        k < TILE_LEN,
    ensures
        half_base(cpu) <= tile_index(cpu, k) < half_base(cpu) + TOTAL_LEDS / 2,
{
    assert((k / 10) * 64 <= 15 * 64) by (nonlinear_arith)
        requires
            k < 160,
    ;
}

/// Every tile holds exactly `TILE_LEN` distinct pixels, all on the panel, all
/// in the tile's column band and in the half of the panel of its core.
pub proof fn lemma_tile_distinct(cpu: nat)
    ensures
        tile_seq(cpu).len() == TILE_LEN,
        forall|j: int, k: int|
            0 <= j < k < TILE_LEN ==> #[trigger] tile_seq(cpu)[j] != #[trigger] tile_seq(cpu)[k],
        forall|k: int|
            0 <= k < TILE_LEN ==> {
                &&& half_base(cpu) <= #[trigger] tile_seq(cpu)[k] < half_base(cpu) + TOTAL_LEDS
                    / 2
                &&& in_band(cpu, tile_seq(cpu)[k] as nat)
            },
{
    assert forall|j: int, k: int|
        0 <= j < k < TILE_LEN implies #[trigger] tile_seq(cpu)[j] != #[trigger] tile_seq(
        cpu,
    )[k] by {
        lemma_tile_index_increasing(cpu, j as nat, k as nat);
        lemma_tile_index_bound(cpu, j as nat);
        lemma_tile_index_bound(cpu, k as nat);
    }
    assert forall|k: int| 0 <= k < TILE_LEN implies {
        &&& half_base(cpu) <= #[trigger] tile_seq(cpu)[k] < half_base(cpu) + TOTAL_LEDS / 2
        &&& in_band(cpu, tile_seq(cpu)[k] as nat)
    } by {
        lemma_tile_index_bound(cpu, k as nat);
        lemma_tile_index_in_band(cpu, k as nat);
    }
}

/// For two neighbouring cores in the same half, the tile of the second is the
/// tile of the first moved right by `CPU_WIDTH` columns, row for row.
pub proof fn lemma_tile_shift(cpu: nat)
    requires
        cpu % (TILES_PER_HALF as nat) != TILES_PER_HALF - 1,
    ensures
        forall|k: int|
            0 <= k < TILE_LEN ==> {
                &&& #[trigger] tile_seq(cpu + 1)[k] == tile_seq(cpu)[k] + CPU_WIDTH
                &&& tile_seq(cpu + 1)[k] % RES_WIDTH == tile_seq(cpu)[k] % RES_WIDTH + CPU_WIDTH
                &&& tile_seq(cpu + 1)[k] / RES_WIDTH == tile_seq(cpu)[k] / RES_WIDTH
            },
{
    assert((cpu + 1) % 6 == cpu % 6 + 1);
    assert(half_base(cpu + 1) == half_base(cpu));
    assert forall|k: int| 0 <= k < TILE_LEN implies {
        &&& #[trigger] tile_seq(cpu + 1)[k] == tile_seq(cpu)[k] + CPU_WIDTH
        &&& tile_seq(cpu + 1)[k] % RES_WIDTH == tile_seq(cpu)[k] % RES_WIDTH + CPU_WIDTH
        &&& tile_seq(cpu + 1)[k] / RES_WIDTH == tile_seq(cpu)[k] / RES_WIDTH
    } by {
        lemma_tile_index_bound(cpu, k as nat);
        lemma_tile_index_bound(cpu + 1, k as nat);
        lemma_tile_index_in_band(cpu, k as nat);
        lemma_tile_index_in_band(cpu + 1, k as nat);
    }
}

/// Generate the LED indexes of the tile of `cpu_index`.
///
/// Cores below `TILES_PER_HALF` are drawn in the top half of the panel, the
/// rest in the bottom half; within a half, `cpu_index % TILES_PER_HALF`
/// selects a band of `CPU_WIDTH` columns. The half is scanned in increasing
/// index order and every pixel of the band is collected until the tile is
/// full.
pub fn generate_indexes(cpu_index: usize) -> (r: [usize; 160])
    ensures
        r@ == tile_seq(cpu_index as nat),
{
    let ghost cpu = cpu_index as nat;
    let mut indexes: [usize; 160] = [0usize; 160];
    let mut idx: usize = if cpu_index < TILES_PER_HALF {
        0
    } else {
        TOTAL_LEDS / 2
    };
    let rel_cpu: usize = cpu_index % TILES_PER_HALF;
    let min_x: usize = CPU_WIDTH * rel_cpu;
    let max_x: usize = min_x + CPU_WIDTH;
    let mut len: usize = 0;
    proof {
        lemma_tile_index_increasing(cpu, 159, 160);
    }
    while len < TILE_LEN
        invariant
            0 <= len <= TILE_LEN,
            min_x == band_start(cpu),
            max_x == min_x + CPU_WIDTH,
            half_base(cpu) <= idx <= tile_index(cpu, len as nat),
            len > 0 ==> tile_index(cpu, (len - 1) as nat) < idx,
            forall|j: int| 0 <= j < len ==> indexes@[j] == tile_index(cpu, j as nat),
        decreases 4096 - idx,
    {
        proof {
            lemma_tile_index_in_band(cpu, len as nat);
            lemma_tile_index_increasing(cpu, len as nat, 160);
            assert(tile_index(cpu, 160) <= 2098);
        }
        let rel_idx: usize = idx % RES_WIDTH;
        if rel_idx >= min_x && rel_idx < max_x {
            proof {
                let t = band_position(cpu, idx as nat);
                lemma_band_pixel_is_tile_index(cpu, idx as nat);
                if t < len {
                    if len > 0 {
                        if t < len - 1 {
                            lemma_tile_index_increasing(cpu, t as nat, (len - 1) as nat);
                        }
                    }
                }
                if t > len {
                    lemma_tile_index_increasing(cpu, len as nat, t as nat);
                }
                assert(t == len);
                lemma_tile_index_increasing(cpu, len as nat, (len + 1) as nat);
            }
            indexes[len] = idx;
            len += 1;
        }
        idx += 1;
    }
    assert(indexes@ =~= tile_seq(cpu));
    indexes
}

} // verus!
