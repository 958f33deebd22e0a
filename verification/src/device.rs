//! Polling/Caching Engine: one non-blocking read-append-scan-drain-cache pass
//! per poll, and a bounded-wait "latest or cached" read on top of it.

use vstd::prelude::*;

use crate::buffer::{RecvBuffer, keep_last};
use crate::commands::switch_output_frame;
use crate::parser::{
    lemma_scan_consumed_bounds, lemma_scan_short_window, parse_minimal_frames, scan_consumed,
    scan_packets,
};
use crate::types::{MinimalPacket, OutputMode, Packet, Reading};
use crate::uart::UartInterface;

verus! {

/// The byte window one poll pass scans: the bytes still buffered from earlier
/// passes followed by the newly read chunk, trimmed by drop-oldest eviction
/// to the buffer's 1024-byte capacity.
pub open spec fn poll_window(buf: Seq<u8>, incoming: Seq<u8>) -> Seq<u8> {
    keep_last(buf + incoming, 1024)
}

/// The bytes still buffered after a poll pass that read `incoming`: the
/// scanned window minus its accounted-for prefix.
pub open spec fn poll_buf_after(buf: Seq<u8>, incoming: Seq<u8>) -> Seq<u8> {
    poll_window(buf, incoming).skip(scan_consumed(poll_window(buf, incoming)) as int)
}

/// A batch of minimal packets as the tagged packets handed to callers.
pub open spec fn wrap_minimal(ms: Seq<MinimalPacket>) -> Seq<Packet> {
    ms.map_values(|m: MinimalPacket| Packet::Minimal(m))
}

/// The packets a poll pass that read `incoming` decodes, oldest first.
pub open spec fn poll_packets(buf: Seq<u8>, incoming: Seq<u8>) -> Seq<Packet> {
    wrap_minimal(scan_packets(poll_window(buf, incoming)))
}

/// The cached packet after a poll pass: the most recent packet decoded by the
/// pass, or the previous cache when the pass decoded none.
pub open spec fn poll_cache_after(buf: Seq<u8>, incoming: Seq<u8>, last: Option<Packet>) -> Option<
    Packet,
> {
    if scan_packets(poll_window(buf, incoming)).len() > 0 {
        Some(Packet::Minimal(scan_packets(poll_window(buf, incoming)).last()))
    } else {
        last
    }
}

/// One poll pass, related to the chunk of bytes it read from the transport:
/// how the buffer, the cache and the returned packets follow from the state
/// before the pass.
pub open spec fn poll_step(
    buf: Seq<u8>,
    last: Option<Packet>,
    incoming: Seq<u8>,
    new_buf: Seq<u8>,
    new_last: Option<Packet>,
    pkts: Seq<Packet>,
) -> bool {
    &&& new_buf == poll_buf_after(buf, incoming)
    &&& pkts == poll_packets(buf, incoming)
    &&& new_last == poll_cache_after(buf, incoming, last)
}

/// A successful poll pass is explained by some chunk of at most
/// `min(read_chunk, 256)` bytes that the transport delivered: the new buffer,
/// the new cache and the returned packets all follow from it by one
/// append-scan-drain-cache step.
pub open spec fn poll_describes(
    buf: Seq<u8>,
    last: Option<Packet>,
    new_buf: Seq<u8>,
    new_last: Option<Packet>,
    pkts: Seq<Packet>,
    read_chunk: usize,
) -> bool {
    exists|incoming: Seq<u8>|
        incoming.len() <= read_chunk && incoming.len() <= 256 && #[trigger] poll_step(
            buf,
            last,
            incoming,
            new_buf,
            new_last,
            pkts,
        )
}

/// A pass that returned no packets decoded none, so it left the cache alone.
pub proof fn lemma_poll_empty_keeps_cache(
    buf: Seq<u8>,
    last: Option<Packet>,
    new_buf: Seq<u8>,
    new_last: Option<Packet>,
    pkts: Seq<Packet>,
    read_chunk: usize,
)
    requires
        poll_describes(buf, last, new_buf, new_last, pkts, read_chunk),
        pkts.len() == 0,
    ensures
        new_last == last,
{
    let inc = choose|incoming: Seq<u8>|
        incoming.len() <= read_chunk && incoming.len() <= 256 && #[trigger] poll_step(
            buf,
            last,
            incoming,
            new_buf,
            new_last,
            pkts,
        );
    assert(wrap_minimal(scan_packets(poll_window(buf, inc))).len() == 0);
}

/// A pass that returned packets cached the most recent of them, and every
/// packet a scan decodes carries the minimal format.
pub proof fn lemma_poll_nonempty_caches_last(
    buf: Seq<u8>,
    last: Option<Packet>,
    new_buf: Seq<u8>,
    new_last: Option<Packet>,
    pkts: Seq<Packet>,
    read_chunk: usize,
)
    requires
        poll_describes(buf, last, new_buf, new_last, pkts, read_chunk),
        pkts.len() > 0,
    ensures
        new_last == Some(pkts.last()),
        pkts.last() is Minimal,
{
    let inc = choose|incoming: Seq<u8>|
        incoming.len() <= read_chunk && incoming.len() <= 256 && #[trigger] poll_step(
            buf,
            last,
            incoming,
            new_buf,
            new_last,
            pkts,
        );
    let ms = scan_packets(poll_window(buf, inc));
    assert(pkts == wrap_minimal(ms));
    assert(pkts.last() == Packet::Minimal(ms.last()));
}

/// Polling with no incoming transport data changes nothing: a quiescent
/// buffer holds at most the 4-byte undecidable tail of the previous scan, so
/// a pass that reads nothing decodes nothing and leaves buffer and cache as
/// they were — and therefore so does any number of such passes in a row.
pub proof fn lemma_poll_no_data_idempotent(buf: Seq<u8>, last: Option<Packet>)
    requires
        buf.len() <= 4,
    ensures
        poll_buf_after(buf, Seq::<u8>::empty()) == buf,
        poll_packets(buf, Seq::<u8>::empty()) == Seq::<Packet>::empty(),
        poll_cache_after(buf, Seq::<u8>::empty(), last) == last,
        poll_cache_after(
            poll_buf_after(buf, Seq::<u8>::empty()),
            Seq::<u8>::empty(),
            poll_cache_after(buf, Seq::<u8>::empty(), last),
        ) == last,
{
    assert(buf + Seq::<u8>::empty() =~= buf);
    assert(poll_window(buf, Seq::<u8>::empty()) == buf);
    lemma_scan_short_window(buf);
    assert(buf.skip(0) =~= buf);
    assert(wrap_minimal(scan_packets(buf)) =~= Seq::<Packet>::empty());
}

/// Driver State: the owned transport, the bounded receive buffer, the last
/// successfully decoded packet, and the wait budget of `read_latest`.
pub struct LD2410S<U: UartInterface> {
    uart: U,
    stream_buf: RecvBuffer,
    last: Option<Packet>,
    max_attempts: usize,
}

impl<U: UartInterface> LD2410S<U> {
    /// The bytes sitting in the receive buffer between calls.
    pub closed spec fn buffered(&self) -> Seq<u8> {
        self.stream_buf@
    }

    /// The cached last packet, if any frame has ever been decoded.
    pub closed spec fn cached(&self) -> Option<Packet> {
        self.last
    }

    /// How many retry passes one `read_latest` call may spend waiting
    /// after its first poll.
    pub closed spec fn attempts(&self) -> usize {
        self.max_attempts
    }

    /// Valid driver states: between calls the buffer holds only the
    /// undecidable tail left by the previous scan, fewer bytes than one
    /// complete frame.
    pub open spec fn wf(&self) -> bool {
        self.buffered().len() <= 4
    }

    /// Create a driver owning `uart`. `max_attempts` is the number of
    /// retry passes `read_latest` makes after its first poll before falling
    /// back to the cache; the caller turns its wall-clock wait budget into
    /// this count.
    pub fn new(uart: U, max_attempts: usize) -> (r: LD2410S<U>)
        ensures
            r.wf(),
            r.buffered() == Seq::<u8>::empty(),
            r.cached() is None,
            r.attempts() == max_attempts,
    {
        LD2410S { uart, stream_buf: RecvBuffer::new(), last: None, max_attempts }
    }

    /// Configure the sensor's output format once after construction.
    pub fn init(&mut self, mode: OutputMode) -> (r: Result<(), U::Error>)
        ensures
            final(self).buffered() == old(self).buffered(),
            final(self).cached() == old(self).cached(),
            final(self).attempts() == old(self).attempts(),
    {
        let frame = switch_output_frame(mode);
        match self.uart.write_all(frame.as_slice()) {
            Ok(_) => Ok(()),
            Err(e) => Err(e),
        }
    }

    /// One non-blocking pass: read up to `read_chunk` bytes (capped at 256)
    /// from the transport, append them to the receive buffer under
    /// drop-oldest eviction, scan the buffered window, drop the
    /// accounted-for prefix, and cache the most recent decoded packet.
    /// Returns every packet decoded this pass, oldest first. A transport
    /// failure is surfaced as-is, with the buffer and cache untouched.
    pub fn poll(&mut self, read_chunk: usize) -> (r: Result<Vec<Packet>, U::Error>)
        ensures
            r is Ok ==> final(self).wf(),
            old(self).wf() ==> final(self).wf(),
            final(self).attempts() == old(self).attempts(),
            match r {
                Ok(pkts) => poll_describes(
                    old(self).buffered(),
                    old(self).cached(),
                    final(self).buffered(),
                    final(self).cached(),
                    pkts@,
                    read_chunk,
                ),
                Err(_) => final(self).buffered() == old(self).buffered() && final(self).cached()
                    == old(self).cached(),
            },
    {
        let max = if read_chunk < 256 {
            read_chunk
        } else {
            256
        };
        let data = match self.uart.read(max) {
            Ok(d) => d,
            Err(e) => {
                return Err(e);
            }
        };
        self.stream_buf.extend(data.as_slice());
        let window = self.stream_buf.snapshot();
        let (mins, consumed) = parse_minimal_frames(window.as_slice());
        proof {
            lemma_scan_consumed_bounds(window@);
        }
        self.stream_buf.drain_front(consumed);
        let mut out: Vec<Packet> = Vec::new();
        let mut k: usize = 0;
        proof {
            assert(wrap_minimal(mins@.take(0)) =~= Seq::<Packet>::empty());
        }
        while k < mins.len()
            invariant
                k <= mins@.len(),
                out@ == wrap_minimal(mins@.take(k as int)),
            decreases mins@.len() - k,
        {
            out.push(Packet::Minimal(mins[k]));
            proof {
                assert(wrap_minimal(mins@.take(k + 1)) =~= wrap_minimal(
                    mins@.take(k as int),
                ).push(Packet::Minimal(mins@[k as int])));
            }
            k = k + 1;
        }
        proof {
            assert(mins@.take(mins@.len() as int) =~= mins@);
        }
        if out.len() > 0 {
            let p = out[out.len() - 1];
            self.last = Some(p);
            proof {
                assert(out@.last() == Packet::Minimal(mins@.last()));
            }
        }
        proof {
            let ghost inc = data@;
            assert(inc.len() <= read_chunk && inc.len() <= 256);
            assert(poll_window(old(self).buffered(), inc) == window@);
            assert(poll_step(
                old(self).buffered(),
                old(self).cached(),
                inc,
                self.buffered(),
                self.cached(),
                out@,
            ));
            assert(poll_describes(
                old(self).buffered(),
                old(self).cached(),
                self.buffered(),
                self.cached(),
                out@,
                read_chunk,
            ));
        }
        Ok(out)
    }

    /// Wait for a fresh frame: one poll pass always, then up to `attempts`
    /// retries. As soon as a pass decodes packets, the most recent one is
    /// returned as a fresh reading. When the budget runs out first, the
    /// cached packet is returned
    /// as a stale reading — or no reading at all if no frame has ever been
    /// decoded. The freshness flag is true exactly when the packet was
    /// decoded during this call.
    pub fn read_latest(&mut self) -> (r: Result<Option<Reading>, U::Error>)
        ensures
            r is Ok ==> final(self).wf(),
            old(self).wf() ==> final(self).wf(),
            final(self).attempts() == old(self).attempts(),
            match r {
                Ok(opt) => match opt {
                    None => old(self).cached() is None && final(self).cached() is None,
                    Some(rd) => {
                        &&& (rd.fresh ==> final(self).cached() == Some(rd.data))
                        &&& (rd.fresh ==> rd.data is Minimal)
                        &&& (!rd.fresh ==> old(self).cached() == Some(rd.data))
                        &&& (!rd.fresh ==> final(self).cached() == Some(rd.data))
                    },
                },
                Err(_) => final(self).cached() == old(self).cached(),
            },
    {
        let mut attempt: usize = 0;
        loop
            invariant
                old(self).wf() ==> self.wf(),
                self.attempts() == old(self).attempts(),
                self.cached() == old(self).cached(),
                attempt <= self.attempts(),
            decreases self.attempts() - attempt,
        {
            let ghost before = *self;
            let frames = match self.poll(256) {
                Ok(f) => f,
                Err(e) => {
                    return Err(e);
                }
            };
            if frames.len() > 0 {
                let data = frames[frames.len() - 1];
                proof {
                    lemma_poll_nonempty_caches_last(
                        before.buffered(),
                        before.cached(),
                        self.buffered(),
                        self.cached(),
                        frames@,
                        256,
                    );
                }
                self.last = Some(data);
                return Ok(Some(Reading { data, fresh: true }));
            }
            proof {
                lemma_poll_empty_keeps_cache(
                    before.buffered(),
                    before.cached(),
                    self.buffered(),
                    self.cached(),
                    frames@,
                    256,
                );
            }
            if attempt >= self.max_attempts {
                return Ok(
                    match self.last {
                        Some(data) => Some(Reading { data, fresh: false }),
                        None => None,
                    },
                );
            }
            attempt = attempt + 1;
        }
    }

    /// Immediate snapshot of the last decoded packet, if any.
    pub fn snapshot(&self) -> (r: Option<Packet>)
        ensures
            r == self.cached(),
    {
        self.last
    }

    /// Send a raw, already framed command to the sensor.
    pub fn send_command(&mut self, cmd: &[u8]) -> (r: Result<(), U::Error>)
        ensures
            final(self).buffered() == old(self).buffered(),
            final(self).cached() == old(self).cached(),
            final(self).attempts() == old(self).attempts(),
    {
        self.uart.write_all(cmd)
    }

    /// Ask the sensor to switch its output format.
    pub fn set_output_mode(&mut self, mode: OutputMode) -> (r: Result<(), U::Error>)
        ensures
            final(self).buffered() == old(self).buffered(),
            final(self).cached() == old(self).cached(),
            final(self).attempts() == old(self).attempts(),
    {
        let frame = switch_output_frame(mode);
        self.uart.write_all(frame.as_slice())
    }
}

} // verus!
