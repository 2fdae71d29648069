//! The per-frame compositor: each pixel of a core's tile is lit when a random
//! draw falls below the core's utilization.

use vstd::prelude::*;
use crate::geometry::{generate_indexes, tile_seq, TILE_LEN, THREAD_COUNT};
use crate::snapshot::{CPUUsage, Packet};

verus! {

/// IEEE-754 single-precision bits of `100.0`.
pub const PERCENT_100_BITS: u32 = 0x42C8_0000;

/// IEEE-754 single-precision bits of positive infinity; every larger pattern
/// with the sign bit clear is a NaN.
pub const INFINITY_BITS: u32 = 0x7F80_0000;

/// Hue of a lit pixel: the first half of the threads in one, the rest in
/// the other.
#[derive(Clone, Copy, Debug, PartialEq, Eq, Structural)]
pub enum Color {
    Green,
    Red,
}

/// One lit pixel of a frame, by its linear index on the panel.
#[derive(Clone, Copy, Debug, PartialEq, Eq, Structural)]
pub struct LitPixel {
    pub index: usize,
    pub color: Color,
}

/// Whether a draw lies below a utilization, both given as IEEE-754 bits.
///
/// For a draw that is a float in `[0, 100)` this is the float comparison
/// `draw < usage`: non-negative floats order as their bit patterns do, a
/// negative utilization (sign bit set) is below every such draw, and a NaN
/// utilization compares false.
pub open spec fn draw_below(draw: u32, usage: u32) -> bool {
    usage <= INFINITY_BITS && draw < usage
}

/// The hue of core `id`.
pub open spec fn core_color(id: u8) -> Color {
    if (id as nat) < THREAD_COUNT / 2 {
        Color::Green
    } else {
        Color::Red
    }
}

/// The pixels that the first `n` draws light in the tile of `core`.
pub open spec fn lit_prefix(core: CPUUsage, draws: Seq<u32>, n: nat) -> Seq<LitPixel>
    decreases n,
{
    if n == 0 {
        Seq::empty()
    } else {
        let prev = lit_prefix(core, draws, (n - 1) as nat);
        if draw_below(draws[n - 1], core.usage_bits) {
            prev.push(
                LitPixel { index: tile_seq(core.id as nat)[n - 1], color: core_color(core.id) },
            )
        } else {
            prev
        }
    }
}

/// The lit pixels of `core`'s tile, one draw per pixel in tile order.
pub open spec fn core_pixels(core: CPUUsage, draws: Seq<u32>) -> Seq<LitPixel> {
    lit_prefix(core, draws, TILE_LEN as nat)
}

/// The lit pixels of the first `n` cores, each core taking the next
/// `TILE_LEN` draws.
pub open spec fn frame_prefix(cores: Seq<CPUUsage>, draws: Seq<u32>, n: nat) -> Seq<LitPixel>
    decreases n,
{
    if n == 0 {
        Seq::empty()
    } else {
        frame_prefix(cores, draws, (n - 1) as nat) + core_pixels(
            cores[n - 1],
            draws.subrange((n - 1) * TILE_LEN, n * TILE_LEN),
        )
    }
}

/// The lit pixels of a whole frame.
pub open spec fn frame_pixels(cores: Seq<CPUUsage>, draws: Seq<u32>) -> Seq<LitPixel> {
    frame_prefix(cores, draws, cores.len())
}

proof fn lemma_idle_prefix(core: CPUUsage, draws: Seq<u32>, n: nat)
    requires
        core.usage_bits == 0,
    ensures
        lit_prefix(core, draws, n) == Seq::<LitPixel>::empty(),
    decreases n,
{
    if n > 0 {
        lemma_idle_prefix(core, draws, (n - 1) as nat);
    }
}

/// The whole tile of `core` in its colour, in tile order.
pub open spec fn full_tile(core: CPUUsage) -> Seq<LitPixel> {
    Seq::new(
        TILE_LEN as nat,
        |k: int| LitPixel { index: tile_seq(core.id as nat)[k], color: core_color(core.id) },
    )
}

proof fn lemma_full_prefix(core: CPUUsage, draws: Seq<u32>, n: nat)
    requires
        core.usage_bits == PERCENT_100_BITS,
        n <= TILE_LEN <= draws.len(),
        forall|i: int| 0 <= i < draws.len() ==> draws[i] < PERCENT_100_BITS,
    ensures
        lit_prefix(core, draws, n) == full_tile(core).take(n as int),
    decreases n,
{
    if n > 0 {
        lemma_full_prefix(core, draws, (n - 1) as nat);
        assert(lit_prefix(core, draws, n) =~= full_tile(core).take(n as int));
    } else {
        assert(full_tile(core).take(0) =~= Seq::<LitPixel>::empty());
    }
}

/// A core at zero utilization lights none of its pixels, whatever the draws.
pub proof fn lemma_idle_core_dark(core: CPUUsage, draws: Seq<u32>)
    requires
        core.usage_bits == 0,
    ensures
        core_pixels(core, draws) == Seq::<LitPixel>::empty(),
{
    lemma_idle_prefix(core, draws, TILE_LEN as nat);
}

/// A core at full utilization lights every pixel of its tile, whatever the
/// draws in `[0, 100)`.
pub proof fn lemma_busy_core_lit(core: CPUUsage, draws: Seq<u32>)
    requires
        core.usage_bits == PERCENT_100_BITS,
        draws.len() == TILE_LEN,
        forall|i: int| 0 <= i < draws.len() ==> draws[i] < PERCENT_100_BITS,
    ensures
        core_pixels(core, draws) == full_tile(core),
{
    lemma_full_prefix(core, draws, TILE_LEN as nat);
    assert(full_tile(core).take(TILE_LEN as int) =~= full_tile(core));
}

/// Colour of the pixels of core `id`.
pub fn color_of(id: u8) -> (r: Color)
    ensures
        r == core_color(id),
{
    if (id as usize) < THREAD_COUNT / 2 {
        Color::Green
    } else {
        Color::Red
    }
}

/// Appends to `out` the pixels of `core`'s tile that its draws light; the
/// draws are `draws[start .. start + TILE_LEN]`, one per pixel in tile order.
pub fn compose_core(core: CPUUsage, draws: &[u32], start: usize, out: &mut Vec<LitPixel>)
    requires
        start + TILE_LEN <= draws@.len(),
    ensures
        final(out)@ == old(out)@ + core_pixels(
            core,
            draws@.subrange(start as int, start + TILE_LEN),
        ),
{
    let ghost d = draws@.subrange(start as int, start + TILE_LEN);
    let tile = generate_indexes(core.id as usize);
    let color = color_of(core.id);
    let mut k: usize = 0;
    while k < TILE_LEN
        invariant
            k <= TILE_LEN,
            start + TILE_LEN <= draws@.len(),
            draws@.len() == draws.len(),
            d == draws@.subrange(start as int, start + TILE_LEN),
            tile@ == tile_seq(core.id as nat),
            color == core_color(core.id),
            out@ == old(out)@ + lit_prefix(core, d, k as nat),
        decreases TILE_LEN - k,
    {
        let draw: u32 = draws[start + k];
        assert(draw == d[k as int]);
        if core.usage_bits <= INFINITY_BITS && draw < core.usage_bits {
            out.push(LitPixel { index: tile[k], color });
        }
        k += 1;
        assert(out@ =~= old(out)@ + lit_prefix(core, d, k as nat));
    }
}

/// The lit pixels of one frame of `packet`: for each reading in order, the
/// pixels of its core's tile whose draw falls below its utilization. Each
/// reading takes the next `TILE_LEN` draws.
pub fn compose(packet: &Packet, draws: &[u32]) -> (r: Vec<LitPixel>)
    requires
        packet.wf(),
        draws@.len() == packet@.len() * TILE_LEN,
    ensures
        r@ == frame_pixels(packet@, draws@),
{
    let mut out: Vec<LitPixel> = Vec::new();
    let n: usize = packet.len();
    let mut i: usize = 0;
    while i < n
        invariant
            i <= n,
            n == packet@.len(),
            packet.wf(),
            draws@.len() == n * TILE_LEN,
            out@ == frame_prefix(packet@, draws@, i as nat),
        decreases n - i,
    {
        assert((i + 1) * TILE_LEN <= n * TILE_LEN) by (nonlinear_arith)
            requires
                i < n,
        ;
        compose_core(packet.get(i), draws, i * TILE_LEN, &mut out);
        i += 1;
    }
    out
}

} // verus!
