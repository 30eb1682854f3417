use vstd::prelude::*;

use crate::binary32::{binary32_bits_from_u32, binary32_bits_of};
use vstd::bytes::{
    lemma_auto_spec_u32_to_from_le_bytes, spec_u32_from_le_bytes, spec_u32_to_le_bytes,
    u32_from_le_bytes, u32_to_le_bytes,
};
use vstd::slice::slice_subrange;

verus! {

/// The per-frame uniform block, kept as the exact bit image of the 16-byte
/// GPU buffer: elapsed time, one reserved alignment word, and the viewport
/// resolution. The time and resolution words hold raw single-precision bit
/// patterns (see the `binary32` module); the reserved word is always zero.
///
/// Field order and width are load-bearing: the shader reads the block with
/// this exact layout, so `to_bytes` below is the one serialisation.
#[derive(Clone, Copy, Debug, PartialEq, Eq, Structural)]
pub struct Uniform {
    pub time_bits: u32,
    pub padding: u32,
    pub res_x_bits: u32,
    pub res_y_bits: u32,
}

/// The serialised image of a uniform block: four little-endian 32-bit words,
/// 16 bytes in all — 4 (time) + 4 (padding) + 8 (resolution).
pub open spec fn spec_uniform_bytes(u: Uniform) -> Seq<u8> {
    spec_u32_to_le_bytes(u.time_bits) + spec_u32_to_le_bytes(u.padding)
        + spec_u32_to_le_bytes(u.res_x_bits) + spec_u32_to_le_bytes(u.res_y_bits)
}

/// The uniform block a 16-byte image decodes to; `None` for any other length.
pub open spec fn spec_uniform_from_bytes(s: Seq<u8>) -> Option<Uniform> {
    if s.len() == 16 {
        Some(
            Uniform {
                time_bits: spec_u32_from_le_bytes(s.subrange(0, 4)),
                padding: spec_u32_from_le_bytes(s.subrange(4, 8)),
                res_x_bits: spec_u32_from_le_bytes(s.subrange(8, 12)),
                res_y_bits: spec_u32_from_le_bytes(s.subrange(12, 16)),
            },
        )
    } else {
        None
    }
}

impl Uniform {
    /// The initial uniform block for a session: time zero, reserved word
    /// zero, and the resolution encoded as single-precision bit patterns.
    pub open spec fn spec_new(width: u32, height: u32) -> Uniform {
        Uniform {
            time_bits: 0,
            padding: 0,
            res_x_bits: binary32_bits_of(width as nat) as u32,
            res_y_bits: binary32_bits_of(height as nat) as u32,
        }
    }

    /// Build the initial uniform block for a `width` by `height` viewport.
    pub fn new(width: u32, height: u32) -> (r: Uniform)
        ensures
            r == Uniform::spec_new(width, height),
            r.res_x_bits as nat == binary32_bits_of(width as nat),
            r.res_y_bits as nat == binary32_bits_of(height as nat),
    {
        Uniform {
            time_bits: 0,
            padding: 0,
            res_x_bits: binary32_bits_from_u32(width),
            res_y_bits: binary32_bits_from_u32(height),
        }
    }

    /// Overwrite the elapsed-time word; layout and resolution are kept.
    pub fn set_time_bits(&mut self, bits: u32)
        ensures
            *final(self) == (Uniform { time_bits: bits, ..*old(self) }),
    {
        self.time_bits = bits;
    }

    /// Serialise the block exactly as the GPU buffer holds it.
    pub fn to_bytes(&self) -> (r: Vec<u8>)
        ensures
            r@ == spec_uniform_bytes(*self),
            r@.len() == 16,
    {
        proof {
            lemma_auto_spec_u32_to_from_le_bytes();
        }
        let mut out: Vec<u8> = Vec::new();
        let mut word = u32_to_le_bytes(self.time_bits);
        out.append(&mut word);
        let mut word = u32_to_le_bytes(self.padding);
        out.append(&mut word);
        let mut word = u32_to_le_bytes(self.res_x_bits);
        out.append(&mut word);
        let mut word = u32_to_le_bytes(self.res_y_bits);
        out.append(&mut word);
        out
    }

    /// Decode a serialised block; succeeds exactly on 16-byte images.
    pub fn from_bytes(bytes: &[u8]) -> (r: Option<Uniform>)
        ensures
            r == spec_uniform_from_bytes(bytes@),
            r is Some <==> bytes@.len() == 16,
    {
        if bytes.len() != 16 {
            return None;
        }
        let time_bits = u32_from_le_bytes(slice_subrange(bytes, 0, 4));
        let padding = u32_from_le_bytes(slice_subrange(bytes, 4, 8));
        let res_x_bits = u32_from_le_bytes(slice_subrange(bytes, 8, 12));
        let res_y_bits = u32_from_le_bytes(slice_subrange(bytes, 12, 16));
        Some(Uniform { time_bits, padding, res_x_bits, res_y_bits })
    }
}

/// The byte layout round-trips: serialising a uniform block and decoding the
/// 16 bytes gives the block back, so no field can change order or width
/// without breaking this law.
pub proof fn lemma_uniform_bytes_round_trip(u: Uniform)
    ensures
        spec_uniform_bytes(u).len() == 16,
        spec_uniform_from_bytes(spec_uniform_bytes(u)) == Some(u),
{
    lemma_auto_spec_u32_to_from_le_bytes();
    let s = spec_uniform_bytes(u);
    assert(s.subrange(0, 4) =~= spec_u32_to_le_bytes(u.time_bits));
    assert(s.subrange(4, 8) =~= spec_u32_to_le_bytes(u.padding));
    assert(s.subrange(8, 12) =~= spec_u32_to_le_bytes(u.res_x_bits));
    assert(s.subrange(12, 16) =~= spec_u32_to_le_bytes(u.res_y_bits));
}

} // verus!
