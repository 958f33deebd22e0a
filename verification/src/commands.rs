//! Frame Encoder: builds outgoing command frames for the sensor.

use vstd::prelude::*;

use crate::types::{OutputMode, mode_payload};

verus! {

/// Command word that selects the sensor's output mode.
pub const CMD_SWITCH_OUTPUT: u16 = 0x007A;

/// The fixed 4-byte command header.
pub open spec fn cmd_head() -> Seq<u8> {
    seq![0xFDu8, 0xFCu8, 0xFBu8, 0xFAu8]
}

/// The fixed 4-byte command trailer.
pub open spec fn cmd_tail() -> Seq<u8> {
    seq![0x04u8, 0x03u8, 0x02u8, 0x01u8]
}

/// The wire encoding of a command frame: header, little-endian length of the
/// 2-byte command word plus the parameters, little-endian command word, the
/// parameter bytes verbatim, trailer.
pub open spec fn cmd_frame(cmd: u16, params: Seq<u8>) -> Seq<u8>
    recommends
        params.len() + 2 <= 0xFFFF,
{
    let data_len = params.len() + 2;
    cmd_head() + seq![(data_len % 256) as u8, (data_len / 256) as u8]
        + seq![(cmd % 256) as u8, (cmd / 256) as u8] + params + cmd_tail()
}

/// Build a raw command frame around the command word `cmd` and its parameter
/// bytes. The length field is 16 bits, so the parameters must leave room for
/// the command word under that range.
pub fn build_cmd(cmd: u16, params: &[u8]) -> (r: Vec<u8>)
    requires
        params@.len() + 2 <= 0xFFFF,
    ensures
        r@ == cmd_frame(cmd, params@),
{
    let data_len: usize = 2 + params.len();
    let mut out: Vec<u8> = Vec::new();
    out.push(0xFD);
    out.push(0xFC);
    out.push(0xFB);
    out.push(0xFA);
    out.push((data_len % 256) as u8);
    out.push((data_len / 256) as u8);
    out.push((cmd % 256) as u8);
    out.push((cmd / 256) as u8);
    let ghost prefix = out@;
    let mut j: usize = 0;
    proof {
        assert(prefix + params@.take(0) =~= prefix);
    }
    while j < params.len()
        invariant
            j <= params@.len(),
            out@ == prefix + params@.take(j as int),
        decreases params@.len() - j,
    {
        out.push(params[j]);
        proof {
            assert((prefix + params@.take(j as int)).push(params@[j as int])
                =~= prefix + params@.take(j + 1));
        }
        j = j + 1;
    }
    proof {
        assert(prefix + params@.take(params@.len() as int) =~= prefix + params@);
    }
    out.push(0x04);
    out.push(0x03);
    out.push(0x02);
    out.push(0x01);
    proof {
        assert(out@ =~= cmd_frame(cmd, params@));
    }
    out
}

/// Encode the switch-output command that puts the sensor in `mode`.
pub fn switch_output_frame(mode: OutputMode) -> (r: Vec<u8>)
    ensures
        r@ == cmd_frame(CMD_SWITCH_OUTPUT, mode_payload(mode)),
{
    let payload = mode.as_six_bytes();
    build_cmd(CMD_SWITCH_OUTPUT, payload.as_slice())
}

/// Round trip through the wire format: the length and command-word fields of
/// an encoded frame decode back to the values handed to the encoder, and the
/// parameter bytes ride verbatim between them and the trailer.
pub proof fn lemma_cmd_frame_round_trip(cmd: u16, params: Seq<u8>)
    requires
        params.len() + 2 <= 0xFFFF,
    ensures
        ({
            let f = cmd_frame(cmd, params);
            &&& f.len() == 12 + params.len()
            &&& f.subrange(0, 4) == cmd_head()
            &&& f[4] + 256 * f[5] == params.len() + 2
            &&& f[6] + 256 * f[7] == cmd
            &&& f.subrange(8, 8 + params.len() as int) == params
            &&& f.subrange(8 + params.len() as int, f.len() as int) == cmd_tail()
        }),
{
    let f = cmd_frame(cmd, params);
    let data_len = (params.len() + 2) as int;
    assert(data_len % 256 + 256 * (data_len / 256) == data_len) by {
        vstd::arithmetic::div_mod::lemma_fundamental_div_mod(data_len, 256);
    };
    assert(cmd % 256 + 256 * (cmd / 256) == cmd) by {
        vstd::arithmetic::div_mod::lemma_fundamental_div_mod(cmd as int, 256);
    };
    assert(f.subrange(0, 4) =~= cmd_head());
    assert(f.subrange(8, 8 + params.len() as int) =~= params);
    assert(f.subrange(8 + params.len() as int, f.len() as int) =~= cmd_tail());
}

} // verus!
