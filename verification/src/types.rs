//! Protocol constants and the packet types handed to callers.

use vstd::prelude::*;

verus! {

/// UART baud rate the sensor expects.
pub const BAUD_RATE: u32 = 115_200;

/// First byte of every 5-byte minimal-format frame.
pub const MINIMAL_HEAD: u8 = 0x6E;

/// Last byte of every 5-byte minimal-format frame.
pub const MINIMAL_TAIL: u8 = 0x62;

/// Output format the sensor can be switched to.
#[derive(Clone, Copy, Debug)]
pub enum OutputMode {
    Minimal,
    Standard,
}

/// The 6-byte parameter payload that selects an output mode.
pub open spec fn mode_payload(mode: OutputMode) -> Seq<u8> {
    match mode {
        OutputMode::Minimal => seq![0u8, 0u8, 0u8, 0u8, 0u8, 0u8],
        OutputMode::Standard => seq![0u8, 0u8, 0u8, 1u8, 0u8, 0u8],
    }
}

impl OutputMode {
    /// Parameter payload of the switch-output command for this mode.
    pub fn as_six_bytes(self) -> (r: [u8; 6])
        ensures
            r@ == mode_payload(self),
    {
        let r: [u8; 6] = match self {
            OutputMode::Minimal => [0, 0, 0, 0, 0, 0],
            OutputMode::Standard => [0, 0, 0, 1, 0, 0],
        };
        proof {
            assert(r@ =~= mode_payload(self));
        }
        r
    }
}

/// State codes 2 and 3 report a detected presence; every other code,
/// including unrecognized ones, reports none.
pub open spec fn presence_of(code: u8) -> bool {
    code == 2 || code == 3
}

/// A decoded 5-byte minimal-format reading.
#[derive(Clone, Copy, Debug, PartialEq, Eq, Structural)]
pub struct MinimalPacket {
    pub presence: bool,
    pub distance_cm: u16,
}

impl MinimalPacket {
    /// Derive the presence flag from a raw state-code byte.
    pub fn presence_hint(value: u8) -> (r: bool)
        ensures
            r == presence_of(value),
    {
        match value {
            0 | 1 => false,
            2 | 3 => true,
            _ => false,
        }
    }
}

/// The projection of a standard-format reading modeled here.
#[derive(Clone, Copy, Debug, PartialEq, Eq, Structural)]
pub struct StandardPacket {
    pub data_type: u8,
    pub distance_cm: u16,
}

/// A measurement in either output format.
#[derive(Clone, Copy, Debug, PartialEq, Eq, Structural)]
pub enum Packet {
    Minimal(MinimalPacket),
    Standard(StandardPacket),
}

impl Packet {
    /// The minimal-format payload, if this is a minimal packet.
    pub fn as_minimal(&self) -> (r: Option<&MinimalPacket>)
        ensures
            match *self {
                Packet::Minimal(m) => r matches Some(p) && *p == m,
                Packet::Standard(_) => r is None,
            },
    {
        match self {
            Packet::Minimal(m) => Some(m),
            _ => None,
        }
    }

    /// The standard-format payload, if this is a standard packet.
    pub fn as_standard(&self) -> (r: Option<&StandardPacket>)
        ensures
            match *self {
                Packet::Standard(s) => r matches Some(p) && *p == s,
                Packet::Minimal(_) => r is None,
            },
    {
        match self {
            Packet::Standard(s) => Some(s),
            _ => None,
        }
    }
}

impl From<MinimalPacket> for Packet {
    fn from(m: MinimalPacket) -> (r: Self)
        ensures
            r == Packet::Minimal(m),
    {
        Packet::Minimal(m)
    }
}

impl vstd::std_specs::convert::FromSpecImpl<MinimalPacket> for Packet {
    open spec fn obeys_from_spec() -> bool {
        true
    }

    open spec fn from_spec(m: MinimalPacket) -> Packet {
        Packet::Minimal(m)
    }
}

/// What `read_latest` hands back: a packet, and whether it was decoded during
/// the call that produced it (`fresh`) or served from the cache.
#[derive(Clone, Copy, Debug, PartialEq, Eq, Structural)]
pub struct Reading {
    pub data: Packet,
    pub fresh: bool,
}

} // verus!
