//! Usage snapshots: the per-core utilization readings exchanged between the
//! ingestion of the byte stream and the compositor.
//!
//! A snapshot keeps its readings in a fixed-capacity `heapless::Vec`, as the
//! device has no allocator to grow one.

use vstd::prelude::*;

verus! {

/// Most cores one snapshot can carry.
pub const MAX_CORES: usize = 32;

/// Utilization of one logical core.
///
/// `usage_bits` is the IEEE-754 single-precision bit pattern of the
/// utilization percentage, exactly as it travels on the wire.
#[derive(Clone, Copy, Debug, PartialEq, Eq, Structural)]
pub struct CPUUsage {
    pub id: u8,
    pub usage_bits: u32,
}

#[verifier::external_type_specification]
#[verifier::external_body]
#[verifier::reject_recursive_types(T)]
pub struct ExHeaplessVec<T, const N: usize>(heapless::Vec<T, N>);

/// The readings that a fixed-capacity vector holds, in order.
pub uninterp spec fn cores_held(v: heapless::Vec<CPUUsage, MAX_CORES>) -> Seq<CPUUsage>;

/// Relies on `heapless::Vec::new`: a vector that holds nothing.
#[verifier::external_body]
fn cores_new() -> (r: heapless::Vec<CPUUsage, MAX_CORES>)
    ensures
        cores_held(r) == Seq::<CPUUsage>::empty(),
{
    heapless::Vec::new()
}

/// Relies on `heapless::Vec::push`: the item is appended while fewer than
/// `N` items are held, and handed back, the vector unchanged, otherwise.
#[verifier::external_body]
fn cores_push(v: &mut heapless::Vec<CPUUsage, MAX_CORES>, item: CPUUsage) -> (r: Result<(), CPUUsage>)
    ensures
        r is Ok <==> cores_held(*old(v)).len() < MAX_CORES,
        r is Ok ==> cores_held(*final(v)) == cores_held(*old(v)).push(item),
        r is Err ==> cores_held(*final(v)) == cores_held(*old(v)),
{
    v.push(item)
}

/// Relies on `heapless::Vec::as_slice`: the slice of the items held, of
/// which there are never more than `N`.
#[verifier::external_body]
fn cores_len(v: &heapless::Vec<CPUUsage, MAX_CORES>) -> (r: usize)
    ensures
        r == cores_held(*v).len(),
        r <= MAX_CORES,
{
    v.as_slice().len()
}

/// Relies on indexing a `heapless::Vec` through its slice of items: the
/// item at `i`.
#[verifier::external_body]
fn cores_get(v: &heapless::Vec<CPUUsage, MAX_CORES>, i: usize) -> (r: CPUUsage)
    requires
        i < cores_held(*v).len(),
    ensures
        r == cores_held(*v)[i as int],
{
    v.as_slice()[i]
}

/// One snapshot: the utilization of each core, in the order the host sent it.
#[derive(Debug, PartialEq, Eq)]
pub struct Packet {
    pub cores: heapless::Vec<CPUUsage, MAX_CORES>,
}

impl View for Packet {
    type V = Seq<CPUUsage>;

    open spec fn view(&self) -> Seq<CPUUsage> {
        cores_held(self.cores)
    }
}

impl Packet {
    /// A snapshot never holds more than `MAX_CORES` readings.
    pub open spec fn wf(&self) -> bool {
        self@.len() <= MAX_CORES
    }

    /// The empty snapshot, current before anything has been received.
    pub fn new() -> (r: Packet)
        ensures
            r@ == Seq::<CPUUsage>::empty(),
            r.wf(),
    {
        Packet { cores: cores_new() }
    }

    /// Number of readings in the snapshot.
    pub fn len(&self) -> (r: usize)
        ensures
            r == self@.len(),
            r <= MAX_CORES,
    {
        cores_len(&self.cores)
    }

    /// The `i`-th reading.
    pub fn get(&self, i: usize) -> (r: CPUUsage)
        requires
            i < self@.len(),
        ensures
            r == self@[i as int],
    {
        cores_get(&self.cores, i)
    }

    /// Appends a reading; returns `false`, and leaves the snapshot as it was,
    /// when it already holds `MAX_CORES` readings.
    pub fn push(&mut self, core: CPUUsage) -> (ok: bool)
        ensures
            ok == (old(self)@.len() < MAX_CORES),
            ok ==> final(self)@ == old(self)@.push(core),
            !ok ==> final(self)@ == old(self)@,
    {
        match cores_push(&mut self.cores, core) {
            Ok(()) => true,
            Err(_) => false,
        }
    }
}

} // verus!
