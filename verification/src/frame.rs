//! The frame on the wire: three LEB128 words and the raw payload.

use crate::leb128::encode;
use vstd::prelude::*;

verus! {

/// The most a frame's three header words can take together.
pub const MAX_HEADER_LEN: usize = 15;

/// One log record as a mathematical value.
pub struct Frame {
    /// Identifies the format literal.
    pub fmt_key: nat,
    /// Identifies the name of the logged value's type.
    pub type_key: nat,
    /// The byte image of the logged value.
    pub payload: Seq<u8>,
}

impl Frame {
    /// Both keys and the payload's length fit in a 32-bit word.
    pub open spec fn encodable(self) -> bool {
        &&& self.fmt_key <= u32::MAX
        &&& self.type_key <= u32::MAX
        &&& self.payload.len() <= u32::MAX
    }

    /// The header: payload length, format key, type key.
    pub open spec fn header(self) -> Seq<u8> {
        encode(self.payload.len()) + encode(self.fmt_key) + encode(self.type_key)
    }

    /// The bytes of the frame in the order in which they travel.
    pub open spec fn wire(self) -> Seq<u8> {
        self.header() + self.payload
    }
}

/// The byte stream of a sequence of frames.
pub open spec fn wire_all(frames: Seq<Frame>) -> Seq<u8>
    decreases frames.len(),
{
    if frames.len() == 0 {
        Seq::empty()
    } else {
        frames[0].wire() + wire_all(frames.skip(1))
    }
}

/// An encodable frame's header takes between three and fifteen bytes.
pub proof fn lemma_header_len(f: Frame)
    requires
        f.encodable(),
    ensures
        3 <= f.header().len() <= 15,
        f.wire().len() == f.header().len() + f.payload.len(),
        f.wire().len() <= f.payload.len() + 15,
{
    crate::leb128::law_decode_encode(f.payload.len() as u32);
    crate::leb128::law_decode_encode(f.fmt_key as u32);
    crate::leb128::law_decode_encode(f.type_key as u32);
}

} // verus!
