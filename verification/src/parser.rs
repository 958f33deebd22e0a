//! Frame Scanner: extracts complete minimal-format frames from a byte window.

use vstd::prelude::*;

use crate::types::{MINIMAL_HEAD, MINIMAL_TAIL, MinimalPacket, presence_of};

verus! {

/// A complete minimal-format frame starts at position `i` of `s`.
pub open spec fn frame_at(s: Seq<u8>, i: int) -> bool {
    &&& 0 <= i
    &&& i + 5 <= s.len()
    &&& s[i] == MINIMAL_HEAD
    &&& s[i + 4] == MINIMAL_TAIL
}

/// The packet encoded by the frame at position `i`: a state code at `i + 1`
/// and a little-endian 16-bit distance at `i + 2 .. i + 4`.
pub open spec fn frame_packet(s: Seq<u8>, i: int) -> MinimalPacket
    recommends
        frame_at(s, i),
{
    MinimalPacket {
        presence: presence_of(s[i + 1]),
        distance_cm: (s[i + 2] + 256 * s[i + 3]) as u16,
    }
}

/// Scanning `s` from position `i`: the packets decoded in left-to-right
/// order, and the position where scanning stopped. A position that starts a
/// complete frame consumes 5 bytes; any other position is unsynchronized
/// noise and is skipped one byte at a time; scanning stops as soon as fewer
/// than 5 bytes remain.
pub open spec fn scan_from(s: Seq<u8>, i: nat) -> (Seq<MinimalPacket>, nat)
    decreases s.len() - i,
{
    if i + 5 > s.len() {
        (Seq::<MinimalPacket>::empty(), i)
    } else if frame_at(s, i as int) {
        let rest = scan_from(s, i + 5);
        (seq![frame_packet(s, i as int)] + rest.0, rest.1)
    } else {
        scan_from(s, i + 1)
    }
}

/// The packets a full scan of `s` decodes.
pub open spec fn scan_packets(s: Seq<u8>) -> Seq<MinimalPacket> {
    scan_from(s, 0).0
}

/// The count of leading bytes a full scan of `s` accounts for, either
/// consumed into a decoded frame or discarded as noise.
pub open spec fn scan_consumed(s: Seq<u8>) -> nat {
    scan_from(s, 0).1
}

proof fn lemma_scan_from_bounds(s: Seq<u8>, i: nat)
    requires
        i <= s.len(),
    ensures
        i <= scan_from(s, i).1,
        scan_from(s, i).1 <= s.len(),
        s.len() <= scan_from(s, i).1 + 4,
    decreases s.len() - i,
{
    if i + 5 > s.len() {
    } else if frame_at(s, i as int) {
        lemma_scan_from_bounds(s, i + 5);
    } else {
        lemma_scan_from_bounds(s, i + 1);
    }
}

/// A scan never accounts for more bytes than the window holds, and it leaves
/// at most 4 trailing bytes pending, whatever the window's contents.
pub proof fn lemma_scan_consumed_bounds(s: Seq<u8>)
    ensures
        scan_consumed(s) <= s.len(),
        s.len() <= scan_consumed(s) + 4,
{
    lemma_scan_from_bounds(s, 0);
}

/// A window shorter than one frame yields no packets and consumes nothing.
pub proof fn lemma_scan_short_window(s: Seq<u8>)
    requires
        s.len() < 5,
    ensures
        scan_packets(s) == Seq::<MinimalPacket>::empty(),
        scan_consumed(s) == 0,
{
}

/// Scan a byte window for complete minimal-format frames. Returns the decoded
/// packets in left-to-right order and the count of leading bytes that are now
/// fully accounted for and may be dropped; the at most 4 trailing bytes that
/// could still be the start of a frame are left unconsumed.
pub fn parse_minimal_frames(input: &[u8]) -> (r: (Vec<MinimalPacket>, usize))
    ensures
        r.0@ == scan_packets(input@),
        r.1 == scan_consumed(input@),
        r.1 <= input@.len(),
{
    let ghost s = input@;
    let mut out: Vec<MinimalPacket> = Vec::new();
    let mut i: usize = 0;
    let n = input.len();
    proof {
        assert(Seq::<MinimalPacket>::empty() + scan_from(s, 0).0 =~= scan_from(s, 0).0);
        lemma_scan_from_bounds(s, 0);
    }
    while n - i >= 5
        invariant
            n == s.len(),
            i <= n,
            s == input@,
            scan_from(s, 0).0 == out@ + scan_from(s, i as nat).0,
            scan_from(s, 0).1 == scan_from(s, i as nat).1,
        decreases n - i,
    {
        if input[i] == MINIMAL_HEAD && input[i + 4] == MINIMAL_TAIL {
            let state = input[i + 1];
            let lo = input[i + 2];
            let hi = input[i + 3];
            let dist: u16 = lo as u16 + 256 * (hi as u16);
            let pkt = MinimalPacket {
                presence: MinimalPacket::presence_hint(state),
                distance_cm: dist,
            };
            out.push(pkt);
            proof {
                assert(frame_at(s, i as int));
                assert(scan_from(s, i as nat).0 == seq![frame_packet(s, i as int)]
                    + scan_from(s, (i + 5) as nat).0);
                assert(out@ + scan_from(s, (i + 5) as nat).0 =~= scan_from(s, 0).0);
            }
            i = i + 5;
        } else {
            proof {
                assert(!frame_at(s, i as int));
            }
            i = i + 1;
        }
    }
    proof {
        assert(scan_from(s, i as nat).0 =~= Seq::<MinimalPacket>::empty());
        assert(out@ + scan_from(s, i as nat).0 =~= out@);
        lemma_scan_from_bounds(s, 0);
    }
    (out, i)
}

} // verus!
