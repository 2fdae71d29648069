//! The refresh-rate counter: advanced once per completed scan of the panel,
//! sampled once per period to give the refresh rate in hertz.

use vstd::prelude::*;

verus! {

/// The counter runs modulo this bound.
pub const COUNTER_MODULUS: u32 = 100_000_000;

/// Count of completed scan cycles, modulo `COUNTER_MODULUS`.
///
/// The value is shared between the scan-complete interrupt, which ticks it,
/// and the main loop, which reads it; both reach it only inside a critical
/// section.
pub struct RefreshCounter {
    count: u32,
}

impl View for RefreshCounter {
    type V = nat;

    closed spec fn view(&self) -> nat {
        self.count as nat
    }
}

impl RefreshCounter {
    pub closed spec fn wf(&self) -> bool {
        self.count < COUNTER_MODULUS
    }

    /// A counter at zero.
    pub fn new() -> (r: RefreshCounter)
        ensures
            r.wf(),
            r@ == 0,
    {
        RefreshCounter { count: 0 }
    }

    /// Records one completed scan cycle.
    pub fn tick(&mut self)
        requires
            old(self).wf(),
        ensures
            final(self).wf(),
            final(self)@ == (old(self)@ + 1) % (COUNTER_MODULUS as nat),
    {
        self.count = (self.count + 1) % COUNTER_MODULUS;
    }

    /// The current count.
    pub fn value(&self) -> (r: u32)
        requires
            self.wf(),
        ensures
            r == self@,
            r < COUNTER_MODULUS,
    {
        self.count
    }
}

/// Scan cycles between two readings of the counter; a reading below the
/// previous one (the counter wrapped) counts as none.
pub open spec fn hz_spec(last: u32, current: u32) -> u32 {
    if current > last {
        (current - last) as u32
    } else {
        0
    }
}

/// Scan cycles between two readings of the counter.
pub fn hz_between(last: u32, current: u32) -> (r: u32)
    ensures
        r == hz_spec(last, current),
{
    if current > last {
        current - last
    } else {
        0
    }
}

/// Turns successive readings of the counter into refresh rates.
pub struct RateMeter {
    last: u32,
}

impl View for RateMeter {
    type V = u32;

    closed spec fn view(&self) -> u32 {
        self.last
    }
}

impl RateMeter {
    /// A meter whose first rate is measured from `baseline`.
    pub fn new(baseline: u32) -> (r: RateMeter)
        ensures
            r@ == baseline,
    {
        RateMeter { last: baseline }
    }

    /// The rate since the previous reading; `current` becomes the baseline.
    pub fn sample(&mut self, current: u32) -> (hz: u32)
        ensures
            hz == hz_spec(old(self)@, current),
            final(self)@ == current,
    {
        let hz = hz_between(self.last, current);
        self.last = current;
        hz
    }
}

/// ASCII decimal digits of `n`, most significant first, without leading
/// zeros.
pub open spec fn decimal(n: nat) -> Seq<u8>
    decreases n,
{
    if n < 10 {
        seq![(n + 0x30) as u8]
    } else {
        decimal(n / 10).push((n % 10 + 0x30) as u8)
    }
}

/// The overlay text for a rate of `n` hertz: its digits, then ` Hz`.
pub open spec fn hz_text(n: nat) -> Seq<u8> {
    decimal(n) + seq![0x20u8, 0x48u8, 0x7Au8]
}

fn push_decimal(n: u32, out: &mut Vec<u8>)
    ensures
        final(out)@ == old(out)@ + decimal(n as nat),
    decreases n,
{
    if n >= 10 {
        push_decimal(n / 10, out);
    }
    out.push((n % 10) as u8 + 0x30);
    assert(out@ =~= old(out)@ + decimal(n as nat));
}

/// The overlay text for a rate of `n` hertz, such as `60 Hz`.
pub fn hz_to_str(n: u32) -> (r: Vec<u8>)
    ensures
        r@ == hz_text(n as nat),
{
    let mut out: Vec<u8> = Vec::new();
    push_decimal(n, &mut out);
    out.push(0x20);
    out.push(0x48);
    out.push(0x7A);
    assert(out@ =~= hz_text(n as nat));
    out
}

} // verus!
