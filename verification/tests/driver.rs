use std::cell::RefCell;
use std::rc::Rc;

use ld2410s::device::LD2410S;
use ld2410s::types::{MINIMAL_HEAD, MINIMAL_TAIL, MinimalPacket, OutputMode, Packet};
use ld2410s::uart::UartInterface;

#[derive(Debug)]
struct MockUart {
    data: Vec<u8>,
    pos: usize,
}

impl MockUart {
    fn new(data: Vec<u8>) -> Self {
        Self { data, pos: 0 }
    }
}

impl UartInterface for MockUart {
    type Error = ();

    fn write_all(&mut self, _data: &[u8]) -> Result<(), ()> {
        Ok(())
    }

    fn read(&mut self, max: usize) -> Result<Vec<u8>, ()> {
        if self.pos >= self.data.len() {
            return Ok(Vec::new());
        }
        let n = max.min(self.data.len() - self.pos);
        let out = self.data[self.pos..self.pos + n].to_vec();
        self.pos += n;
        Ok(out)
    }
}

/// Records every write into a shared log and never has data to read.
#[derive(Debug)]
struct RecordUart {
    written: Rc<RefCell<Vec<u8>>>,
}

impl UartInterface for RecordUart {
    type Error = ();

    fn write_all(&mut self, data: &[u8]) -> Result<(), ()> {
        self.written.borrow_mut().extend_from_slice(data);
        Ok(())
    }

    fn read(&mut self, _max: usize) -> Result<Vec<u8>, ()> {
        Ok(Vec::new())
    }
}

/// Fails every transport operation.
#[derive(Debug)]
struct BrokenUart;

impl UartInterface for BrokenUart {
    type Error = ();

    fn write_all(&mut self, _data: &[u8]) -> Result<(), ()> {
        Err(())
    }

    fn read(&mut self, _max: usize) -> Result<Vec<u8>, ()> {
        Err(())
    }
}

#[test]
fn stream_buffer_drops_oldest_bytes_when_full() {
    let mut data = vec![0xFF; 1024];
    data.extend_from_slice(&[MINIMAL_HEAD, 1, 2, 0, MINIMAL_TAIL]);
    let mut sensor = LD2410S::new(MockUart::new(data), 0);
    for _ in 0..10 {
        let _ = sensor.poll(256).unwrap();
    }
    let snapshot = sensor.snapshot();
    assert!(matches!(
        snapshot,
        Some(Packet::Minimal(MinimalPacket { presence: false, distance_cm: 2 }))
    ));
}

#[test]
fn poll_decodes_and_caches_frames() {
    let data = vec![MINIMAL_HEAD, 2, 5, 0, MINIMAL_TAIL, MINIMAL_HEAD, 3, 7, 0, MINIMAL_TAIL];
    let mut sensor = LD2410S::new(MockUart::new(data), 0);
    let packets = sensor.poll(256).unwrap();
    assert_eq!(packets.len(), 2);
    assert_eq!(packets[0], Packet::Minimal(MinimalPacket { presence: true, distance_cm: 5 }));
    assert_eq!(packets[1], Packet::Minimal(MinimalPacket { presence: true, distance_cm: 7 }));
    // The cache holds the most recent packet of the batch.
    assert_eq!(
        sensor.snapshot(),
        Some(Packet::Minimal(MinimalPacket { presence: true, distance_cm: 7 }))
    );
}

#[test]
fn poll_with_no_data_twice_keeps_cache() {
    let data = vec![MINIMAL_HEAD, 2, 5, 0, MINIMAL_TAIL];
    let mut sensor = LD2410S::new(MockUart::new(data), 0);
    sensor.poll(256).unwrap();
    let cached = sensor.snapshot();
    assert!(cached.is_some());
    // The transport is drained: two more polls read nothing and change nothing.
    assert!(sensor.poll(256).unwrap().is_empty());
    assert_eq!(sensor.snapshot(), cached);
    assert!(sensor.poll(256).unwrap().is_empty());
    assert_eq!(sensor.snapshot(), cached);
}

#[test]
fn poll_keeps_partial_frame_for_next_pass() {
    // The frame arrives split across two reads of 3 and 2 bytes.
    let mut sensor = LD2410S::new(MockUart::new(vec![MINIMAL_HEAD, 2, 9]), 0);
    assert!(sensor.poll(256).unwrap().is_empty());
    assert!(sensor.snapshot().is_none());
    // Hand the rest to a fresh transport by polling a new driver over the
    // concatenation in two chunks.
    let mut sensor = LD2410S::new(MockUart::new(vec![MINIMAL_HEAD, 2, 9, 0, MINIMAL_TAIL]), 0);
    assert_eq!(sensor.poll(3).unwrap().len(), 0);
    let packets = sensor.poll(3).unwrap();
    assert_eq!(packets.len(), 1);
    assert_eq!(packets[0], Packet::Minimal(MinimalPacket { presence: true, distance_cm: 9 }));
}

#[test]
fn read_latest_returns_fresh_reading() {
    let data = vec![MINIMAL_HEAD, 2, 5, 0, MINIMAL_TAIL];
    let mut sensor = LD2410S::new(MockUart::new(data), 3);
    let reading = sensor.read_latest().unwrap().unwrap();
    assert!(reading.fresh);
    assert_eq!(reading.data, Packet::Minimal(MinimalPacket { presence: true, distance_cm: 5 }));
}

#[test]
fn read_latest_with_no_frame_ever_returns_no_reading() {
    let mut sensor = LD2410S::new(MockUart::new(Vec::new()), 3);
    assert!(sensor.read_latest().unwrap().is_none());
}

#[test]
fn read_latest_falls_back_to_cached_reading_as_stale() {
    let data = vec![MINIMAL_HEAD, 2, 5, 0, MINIMAL_TAIL];
    let mut sensor = LD2410S::new(MockUart::new(data), 3);
    let fresh = sensor.read_latest().unwrap().unwrap();
    assert!(fresh.fresh);
    // No more transport data: the wait elapses and the cache is served.
    let stale = sensor.read_latest().unwrap().unwrap();
    assert!(!stale.fresh);
    assert_eq!(stale.data, fresh.data);
    // And again: the stale reading stays available.
    let stale2 = sensor.read_latest().unwrap().unwrap();
    assert!(!stale2.fresh);
    assert_eq!(stale2.data, fresh.data);
}

#[test]
fn transport_failure_surfaces_from_poll_and_read_latest() {
    let mut sensor = LD2410S::new(BrokenUart, 3);
    assert!(sensor.poll(256).is_err());
    assert!(sensor.read_latest().is_err());
}

#[test]
fn init_writes_the_switch_output_frame() {
    let log = Rc::new(RefCell::new(Vec::new()));
    let mut sensor = LD2410S::new(RecordUart { written: Rc::clone(&log) }, 0);
    sensor.init(OutputMode::Standard).unwrap();
    assert_eq!(
        *log.borrow(),
        vec![
            0xFD, 0xFC, 0xFB, 0xFA, 0x08, 0x00, 0x7A, 0x00, 0x00, 0x00, 0x00, 0x01, 0x00, 0x00,
            0x04, 0x03, 0x02, 0x01,
        ]
    );
}

#[test]
fn set_output_mode_writes_the_minimal_switch_frame() {
    let log = Rc::new(RefCell::new(Vec::new()));
    let mut sensor = LD2410S::new(RecordUart { written: Rc::clone(&log) }, 0);
    sensor.set_output_mode(OutputMode::Minimal).unwrap();
    assert_eq!(
        *log.borrow(),
        vec![
            0xFD, 0xFC, 0xFB, 0xFA, 0x08, 0x00, 0x7A, 0x00, 0x00, 0x00, 0x00, 0x00, 0x00, 0x00,
            0x04, 0x03, 0x02, 0x01,
        ]
    );
}

#[test]
fn send_command_writes_bytes_verbatim() {
    let log = Rc::new(RefCell::new(Vec::new()));
    let mut sensor = LD2410S::new(RecordUart { written: Rc::clone(&log) }, 0);
    sensor.send_command(&[1, 2, 3]).unwrap();
    assert_eq!(*log.borrow(), vec![1, 2, 3]);
}
