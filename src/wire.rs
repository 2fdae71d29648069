//! The binary layout of a snapshot on the serial link.
//!
//! A frame is the number of readings as an unsigned LEB128 varint (at most
//! `VARINT_MAX` bytes), followed by that many readings of `ENTRY_LEN` bytes
//! each: the core id, then the utilization's IEEE-754 bits in little-endian
//! order.

use vstd::prelude::*;
use crate::snapshot::{CPUUsage, Packet, MAX_CORES};

verus! {

/// Most bytes a varint header may take.
pub const VARINT_MAX: usize = 10;

/// Bytes per reading: the core id and four bytes of utilization.
pub const ENTRY_LEN: usize = 5;

/// Why a buffer does not start with a usable frame.
#[derive(Clone, Copy, Debug, PartialEq, Eq, Structural)]
pub enum DecodeError {
    /// The buffer ends before the frame does.
    Incomplete,
    /// The header carries the continuation bit on all of its `VARINT_MAX` bytes.
    BadVarint,
    /// The header declares more readings than a snapshot can hold.
    CapacityExceeded,
}

/// Length of the varint that starts `s`, scanning from byte `i`: the count of
/// bytes up to and including the first below `0x80`; `-1` when `s` ends first;
/// `0` when `VARINT_MAX` bytes pass without an end.
pub open spec fn varint_len_from(s: Seq<u8>, i: nat) -> int
    decreases VARINT_MAX - i,
{
    if i >= VARINT_MAX {
        0
    } else if i >= s.len() {
        -1
    } else if s[i as int] < 0x80 {
        (i + 1) as int
    } else {
        varint_len_from(s, i + 1)
    }
}

pub open spec fn varint_len(s: Seq<u8>) -> int {
    varint_len_from(s, 0)
}

/// Value of the first `n` base-128 digits of `s`, least significant first.
pub open spec fn varint_value(s: Seq<u8>, n: nat) -> nat
    decreases n,
{
    if n == 0 || s.len() == 0 {
        0
    } else {
        (s[0] % 0x80) as nat + 0x80 * varint_value(s.drop_first(), (n - 1) as nat)
    }
}

/// Number of readings the header of `s` declares.
pub open spec fn declared_count(s: Seq<u8>) -> nat {
    varint_value(s, varint_len(s) as nat)
}

/// Length in bytes of the frame that starts `s`.
pub open spec fn frame_len(s: Seq<u8>) -> nat {
    (varint_len(s) + ENTRY_LEN * declared_count(s)) as nat
}

/// The little-endian `u32` in bytes `p .. p + 4` of `s`.
pub open spec fn le_u32(s: Seq<u8>, p: int) -> u32 {
    (s[p] as int + 0x100 * s[p + 1] + 0x1_0000 * s[p + 2] + 0x100_0000 * s[p + 3]) as u32
}

/// The reading that starts at byte `p` of `s`.
pub open spec fn entry_at(s: Seq<u8>, p: int) -> CPUUsage {
    CPUUsage { id: s[p], usage_bits: le_u32(s, p + 1) }
}

/// The readings of the frame that starts `s`.
pub open spec fn frame_cores(s: Seq<u8>) -> Seq<CPUUsage> {
    Seq::new(declared_count(s), |k: int| entry_at(s, varint_len(s) + ENTRY_LEN * k))
}

/// What decoding the start of `s` yields: the readings and the number of
/// bytes they took, or why there is no frame.
pub open spec fn decode_spec(s: Seq<u8>) -> Result<(Seq<CPUUsage>, nat), DecodeError> {
    if varint_len(s) < 0 {
        Err(DecodeError::Incomplete)
    } else if varint_len(s) == 0 {
        Err(DecodeError::BadVarint)
    } else if declared_count(s) > MAX_CORES {
        Err(DecodeError::CapacityExceeded)
    } else if s.len() < frame_len(s) {
        Err(DecodeError::Incomplete)
    } else {
        Ok((frame_cores(s), frame_len(s)))
    }
}

/// The view of an executable decoding result.
pub open spec fn decoded_view(r: Result<(Packet, usize), DecodeError>) -> Result<
    (Seq<CPUUsage>, nat),
    DecodeError,
> {
    match r {
        Ok((p, n)) => Ok((p@, n as nat)),
        Err(e) => Err(e),
    }
}

proof fn lemma_varint_len_range(s: Seq<u8>, i: nat)
    ensures
        varint_len_from(s, i) <= VARINT_MAX,
        varint_len_from(s, i) > 0 ==> varint_len_from(s, i) > i && varint_len_from(s, i)
            <= s.len() && s[varint_len_from(s, i) - 1] < 0x80,
        varint_len_from(s, i) > 0 ==> forall|j: int|
            i <= j < varint_len_from(s, i) - 1 ==> s[j] >= 0x80,
    decreases VARINT_MAX - i,
{
    if i < VARINT_MAX && i < s.len() && s[i as int] >= 0x80 {
        lemma_varint_len_range(s, i + 1);
    }
}

proof fn lemma_value_zero(s: Seq<u8>, n: nat)
    requires
        forall|j: int| 0 <= j < n && j < s.len() ==> s[j] % 0x80 == 0,
    ensures
        varint_value(s, n) == 0,
    decreases n,
{
    if n > 0 && s.len() > 0 {
        let t = s.drop_first();
        assert forall|j: int| 0 <= j < n - 1 && j < t.len() implies t[j] % 0x80 == 0 by {
            assert(t[j] == s[j + 1]);
        }
        lemma_value_zero(t, (n - 1) as nat);
    }
}

proof fn lemma_value_positive(s: Seq<u8>, n: nat, j: int)
    requires
        0 <= j < n,
        j < s.len(),
        s[j] % 0x80 != 0,
    ensures
        varint_value(s, n) >= 1,
    decreases n,
{
    if j > 0 {
        let t = s.drop_first();
        assert(t[j - 1] == s[j]);
        lemma_value_positive(t, (n - 1) as nat, j - 1);
    }
}

/// The value of a varint is its first digit when every later digit is zero,
/// and at least `0x80` otherwise.
proof fn lemma_value_by_high_digits(s: Seq<u8>, n: nat)
    requires
        1 <= n <= s.len(),
    ensures
        (forall|j: int| 1 <= j < n ==> s[j] % 0x80 == 0) ==> varint_value(s, n) == s[0] % 0x80,
        (exists|j: int| 1 <= j < n && s[j] % 0x80 != 0) ==> varint_value(s, n) >= 0x80,
{
    let t = s.drop_first();
    if forall|j: int| 1 <= j < n ==> s[j] % 0x80 == 0 {
        assert forall|j: int| 0 <= j < n - 1 && j < t.len() implies t[j] % 0x80 == 0 by {
            assert(t[j] == s[j + 1]);
        }
        lemma_value_zero(t, (n - 1) as nat);
    }
    if exists|j: int| 1 <= j < n && s[j] % 0x80 != 0 {
        let j = choose|j: int| 1 <= j < n && s[j] % 0x80 != 0;
        assert(t[j - 1] == s[j]);
        lemma_value_positive(t, (n - 1) as nat, j - 1);
    }
}

/// Two buffers that agree up to the end of the header of `s` have the same
/// header.
proof fn lemma_varint_len_agree(s: Seq<u8>, t: Seq<u8>, i: nat)
    requires
        varint_len_from(s, i) > 0,
        varint_len_from(s, i) <= t.len(),
        forall|j: int| 0 <= j < varint_len_from(s, i) ==> s[j] == t[j],
    ensures
        varint_len_from(t, i) == varint_len_from(s, i),
    decreases VARINT_MAX - i,
{
    lemma_varint_len_range(s, i);
    if i < VARINT_MAX && s[i as int] >= 0x80 {
        lemma_varint_len_agree(s, t, i + 1);
    }
}

/// A buffer cut before the end of the header of `s` has no complete header.
proof fn lemma_varint_len_cut(s: Seq<u8>, k: nat, i: nat)
    requires
        i <= k,
        k < varint_len_from(s, i),
        k <= s.len(),
    ensures
        varint_len_from(s.take(k as int), i) == -1,
    decreases VARINT_MAX - i,
{
    lemma_varint_len_range(s, i);
    if i < k {
        assert(s.take(k as int)[i as int] == s[i as int]);
        lemma_varint_len_cut(s, k, i + 1);
    }
}

proof fn lemma_value_agree(s: Seq<u8>, t: Seq<u8>, n: nat)
    requires
        n <= s.len(),
        n <= t.len(),
        forall|j: int| 0 <= j < n ==> s[j] == t[j],
    ensures
        varint_value(s, n) == varint_value(t, n),
    decreases n,
{
    if n > 0 {
        let s1 = s.drop_first();
        let t1 = t.drop_first();
        assert forall|j: int| 0 <= j < n - 1 implies s1[j] == t1[j] by {
            assert(s[j + 1] == t[j + 1]);
        }
        lemma_value_agree(s1, t1, (n - 1) as nat);
    }
}

/// A buffer that agrees with `s` on the header of `s` declares the same
/// frame length.
proof fn lemma_header_agree(s: Seq<u8>, t: Seq<u8>)
    requires
        varint_len(s) > 0,
        varint_len(s) <= t.len(),
        forall|j: int| 0 <= j < varint_len(s) ==> s[j] == t[j],
    ensures
        varint_len(t) == varint_len(s),
        declared_count(t) == declared_count(s),
        frame_len(t) == frame_len(s),
{
    lemma_varint_len_agree(s, t, 0);
    lemma_varint_len_range(s, 0);
    lemma_value_agree(s, t, varint_len(s) as nat);
}

/// A frame cut short anywhere before its end decodes as incomplete, never as
/// a snapshot or a malformed frame.
pub proof fn lemma_truncated_frame_incomplete(s: Seq<u8>, k: nat)
    requires
        decode_spec(s) is Ok,
        k < frame_len(s),
    ensures
        decode_spec(s.take(k as int)) == Err::<(Seq<CPUUsage>, nat), DecodeError>(
            DecodeError::Incomplete,
        ),
{
    let t = s.take(k as int);
    lemma_varint_len_range(s, 0);
    if k < varint_len(s) {
        lemma_varint_len_cut(s, k, 0);
    } else {
        lemma_header_agree(s, t);
    }
}

/// Whatever follows a complete frame, the frame decodes to the same snapshot
/// and length: a frame received in pieces decodes, once its last byte has
/// arrived, as it would have in one piece.
pub proof fn lemma_frame_extended(s: Seq<u8>, t: Seq<u8>)
    requires
        decode_spec(s) is Ok,
    ensures
        decode_spec(s + t) == decode_spec(s),
{
    let u = s + t;
    lemma_varint_len_range(s, 0);
    assert forall|j: int| 0 <= j < varint_len(s) implies s[j] == u[j] by {}
    lemma_header_agree(s, u);
    assert forall|k: int| 0 <= k < declared_count(s) implies #[trigger] frame_cores(u)[k]
        == frame_cores(s)[k] by {
        let p = varint_len(s) + ENTRY_LEN * k;
        assert(p + ENTRY_LEN <= frame_len(s)) by (nonlinear_arith)
            requires
                p == varint_len(s) + ENTRY_LEN * k,
                k < declared_count(s),
                frame_len(s) == varint_len(s) + ENTRY_LEN * declared_count(s),
        ;
        assert(u[p] == s[p] && u[p + 1] == s[p + 1] && u[p + 2] == s[p + 2] && u[p + 3] == s[p + 3]
            && u[p + 4] == s[p + 4]);
    }
    assert(frame_cores(u) =~= frame_cores(s));
}

/// Reads the little-endian `u32` at byte `p` of `buf`.
fn read_le_u32(buf: &[u8], p: usize) -> (r: u32)
    requires
        p + 4 <= buf@.len(),
    ensures
        r == le_u32(buf@, p as int),
{
    let b0: u32 = buf[p] as u32;
    let b1: u32 = buf[p + 1] as u32;
    let b2: u32 = buf[p + 2] as u32;
    let b3: u32 = buf[p + 3] as u32;
    b0 + b1 * 0x100 + b2 * 0x1_0000 + b3 * 0x100_0000
}

/// Reads `count` readings from `buf`, starting at byte `start`.
fn read_entries(buf: &[u8], start: usize, count: usize) -> (r: Packet)
    requires
        count <= MAX_CORES,
        start + ENTRY_LEN * count <= buf@.len(),
    ensures
        r@ == Seq::new(count as nat, |k: int| entry_at(buf@, start + ENTRY_LEN * k)),
        r.wf(),
{
    let mut r = Packet::new();
    let mut k: usize = 0;
    while k < count
        invariant
            k <= count <= MAX_CORES,
            start + ENTRY_LEN * count <= buf@.len(),
            r@.len() == k,
            forall|j: int| 0 <= j < k ==> r@[j] == entry_at(buf@, start + ENTRY_LEN * j),
        decreases count - k,
    {
        assert(ENTRY_LEN * k + ENTRY_LEN <= ENTRY_LEN * count);
        assert(buf@.len() == buf.len());
        let p: usize = start + ENTRY_LEN * k;
        let entry = CPUUsage { id: buf[p], usage_bits: read_le_u32(buf, p + 1) };
        r.push(entry);
        k += 1;
    }
    assert(r@ =~= Seq::new(count as nat, |k: int| entry_at(buf@, start + ENTRY_LEN * k)));
    r
}

/// Finishes decoding once the header is known to end at byte `hlen` and to
/// declare `count` readings.
fn decode_body(buf: &[u8], hlen: usize, count: usize) -> (r: Result<(Packet, usize), DecodeError>)
    requires
        1 <= hlen <= VARINT_MAX,
        varint_len(buf@) == hlen,
        declared_count(buf@) == count,
        count <= MAX_CORES,
    ensures
        decoded_view(r) == decode_spec(buf@),
        r matches Ok((p, _)) ==> p.wf(),
{
    let flen: usize = hlen + ENTRY_LEN * count;
    if buf.len() < flen {
        Err(DecodeError::Incomplete)
    } else {
        let p = read_entries(buf, hlen, count);
        assert(p@ =~= frame_cores(buf@));
        Ok((p, flen))
    }
}

/// Decodes the frame at the start of `buf`.
///
/// On success returns the snapshot and the number of bytes the frame took;
/// bytes after the frame are left alone.
pub fn decode_packet(buf: &[u8]) -> (r: Result<(Packet, usize), DecodeError>)
    ensures
        decoded_view(r) == decode_spec(buf@),
        r matches Ok((p, _)) ==> p.wf(),
{
    let ghost s = buf@;
    if buf.len() == 0 {
        return Err(DecodeError::Incomplete);
    }
    let first: u8 = buf[0] % 0x80;
    let mut high: bool = false;
    let mut i: usize = 0;
    while i < VARINT_MAX
        invariant
            i <= VARINT_MAX,
            i <= s.len(),
            s.len() > 0,
            buf@ == s,
            first == s[0] % 0x80,
            forall|j: int| 0 <= j < i ==> s[j] >= 0x80,
            varint_len_from(s, 0) == varint_len_from(s, i as nat),
            high <==> exists|j: int| 1 <= j < i && s[j] % 0x80 != 0,
        decreases VARINT_MAX - i,
    {
        if i >= buf.len() {
            return Err(DecodeError::Incomplete);
        }
        let b: u8 = buf[i];
        if i > 0 && b % 0x80 != 0 {
            high = true;
        }
        if b < 0x80 {
            proof {
                lemma_value_by_high_digits(s, (i + 1) as nat);
                assert(high <==> exists|j: int| 1 <= j < i + 1 && s[j] % 0x80 != 0);
            }
            if high || first as usize > MAX_CORES {
                return Err(DecodeError::CapacityExceeded);
            }
            return decode_body(buf, i + 1, first as usize);
        }
        proof {
            assert(high <==> exists|j: int| 1 <= j < i + 1 && s[j] % 0x80 != 0);
        }
        i += 1;
    }
    Err(DecodeError::BadVarint)
}

} // verus!
