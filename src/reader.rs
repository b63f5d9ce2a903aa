//! A bounds-checked, big-endian byte cursor over an in-memory buffer.

use vstd::prelude::*;

verus! {

/// The one way a decode can fail: a read or skip asked for more bytes than
/// were left in the buffer.
#[derive(Debug, Clone, Copy, PartialEq, Eq, Structural)]
pub enum ParseError {
    InsufficientData,
}

/// Big-endian 16-bit value of the two bytes of `s` at `i`.
pub open spec fn be_u16(s: Seq<u8>, i: int) -> int {
    s[i] as int * 256 + s[i + 1] as int
}

/// Big-endian 32-bit value of the four bytes of `s` at `i`.
pub open spec fn be_u32(s: Seq<u8>, i: int) -> int {
    be_u16(s, i) * 65536 + be_u16(s, i + 2)
}

/// Big-endian 64-bit value of the eight bytes of `s` at `i`.
pub open spec fn be_u64(s: Seq<u8>, i: int) -> int {
    be_u32(s, i) * 0x1_0000_0000 + be_u32(s, i + 4)
}

/// The signed 32-bit value whose two's-complement bits are those of `x`.
pub open spec fn as_signed32(x: int) -> int {
    if x < 0x8000_0000 {
        x
    } else {
        x - 0x1_0000_0000
    }
}

/// A cursor: the buffer and the position of the next unread byte.
pub struct Reader {
    data: Vec<u8>,
    pos: usize,
}

impl Reader {
    /// The whole buffer.
    pub closed spec fn bytes(&self) -> Seq<u8> {
        self.data@
    }

    /// The position of the next unread byte.
    pub closed spec fn pos(&self) -> nat {
        self.pos as nat
    }

    /// The position lies within the buffer.
    pub open spec fn wf(&self) -> bool {
        self.pos() <= self.bytes().len()
    }

    /// The bytes not read yet.
    pub open spec fn rest(&self) -> Seq<u8> {
        self.bytes().subrange(self.pos() as int, self.bytes().len() as int)
    }

    /// Number of bytes not read yet.
    pub open spec fn remaining(&self) -> nat {
        (self.bytes().len() - self.pos()) as nat
    }

    /// A cursor at the start of `data`.
    pub fn new(data: Vec<u8>) -> (r: Reader)
        ensures
            r.wf(),
            r.bytes() == data@,
            r.pos() == 0,
    {
        Reader { data, pos: 0 }
    }

    /// The position of the next unread byte.
    pub fn position(&self) -> (r: usize)
        requires
            self.wf(),
        ensures
            r == self.pos(),
    {
        self.pos
    }

    /// Number of bytes not read yet.
    pub fn remaining_len(&self) -> (r: usize)
        requires
            self.wf(),
        ensures
            r == self.remaining(),
    {
        self.data.len() - self.pos
    }

    proof fn lemma_rest_index(&self, k: int)
        requires
            self.wf(),
            0 <= k < self.remaining(),
        ensures
            self.rest()[k] == self.bytes()[self.pos() + k],
    {
    }

    /// Advances past `n` bytes without reading them.
    pub fn skip(&mut self, n: usize) -> (r: Result<(), ParseError>)
        requires
            old(self).wf(),
        ensures
            final(self).wf(),
            final(self).bytes() == old(self).bytes(),
            match r {
                Ok(()) => n <= old(self).remaining() && final(self).pos() == old(self).pos() + n,
                Err(e) => n > old(self).remaining() && e == ParseError::InsufficientData
                    && final(self).pos() == old(self).pos(),
            },
    {
        if n > self.data.len() - self.pos {
            return Err(ParseError::InsufficientData);
        }
        self.pos = self.pos + n;
        Ok(())
    }

    /// Reads a big-endian unsigned 16-bit value.
    pub fn read_u16(&mut self) -> (r: Result<u16, ParseError>)
        requires
            old(self).wf(),
        ensures
            final(self).wf(),
            final(self).bytes() == old(self).bytes(),
            match r {
                Ok(v) => 2 <= old(self).remaining() && final(self).pos() == old(self).pos() + 2
                    && v as int == be_u16(old(self).rest(), 0),
                Err(e) => 2 > old(self).remaining() && e == ParseError::InsufficientData
                    && final(self).pos() == old(self).pos(),
            },
    {
        if 2 > self.data.len() - self.pos {
            return Err(ParseError::InsufficientData);
        }
        let b0 = self.data[self.pos];
        let b1 = self.data[self.pos + 1];
        proof {
            self.lemma_rest_index(0);
            self.lemma_rest_index(1);
        }
        let v: u16 = (b0 as u16) * 256 + b1 as u16;
        self.pos = self.pos + 2;
        Ok(v)
    }

    /// Reads a big-endian unsigned 32-bit value.
    pub fn read_u32(&mut self) -> (r: Result<u32, ParseError>)
        requires
            old(self).wf(),
        ensures
            final(self).wf(),
            final(self).bytes() == old(self).bytes(),
            match r {
                Ok(v) => 4 <= old(self).remaining() && final(self).pos() == old(self).pos() + 4
                    && v as int == be_u32(old(self).rest(), 0),
                Err(e) => 4 > old(self).remaining() && e == ParseError::InsufficientData
                    && final(self).pos() == old(self).pos(),
            },
    {
        if 4 > self.data.len() - self.pos {
            return Err(ParseError::InsufficientData);
        }
        let p = self.pos;
        let b0 = self.data[p] as u32;
        let b1 = self.data[p + 1] as u32;
        let b2 = self.data[p + 2] as u32;
        let b3 = self.data[p + 3] as u32;
        proof {
            self.lemma_rest_index(0);
            self.lemma_rest_index(1);
            self.lemma_rest_index(2);
            self.lemma_rest_index(3);
        }
        let h: u32 = b0 * 256 + b1;
        let l: u32 = b2 * 256 + b3;
        assert(h * 65536 + l <= 0xffff_ffff) by (nonlinear_arith)
            requires h <= 65535, l <= 65535;
        let v: u32 = h * 65536 + l;
        self.pos = p + 4;
        Ok(v)
    }

    /// Reads a big-endian unsigned 64-bit value.
    pub fn read_u64(&mut self) -> (r: Result<u64, ParseError>)
        requires
            old(self).wf(),
        ensures
            final(self).wf(),
            final(self).bytes() == old(self).bytes(),
            match r {
                Ok(v) => 8 <= old(self).remaining() && final(self).pos() == old(self).pos() + 8
                    && v as int == be_u64(old(self).rest(), 0),
                Err(e) => 8 > old(self).remaining() && e == ParseError::InsufficientData
                    && final(self).pos() == old(self).pos(),
            },
    {
        if 8 > self.data.len() - self.pos {
            return Err(ParseError::InsufficientData);
        }
        let ghost s0 = self.rest();
        let hi = self.read_u32();
        proof {
            assert forall|k: int| 0 <= k < 4 implies #[trigger] self.rest()[k] == s0[k + 4] by {
                self.lemma_rest_index(k);
            }
        }
        let lo = self.read_u32();
        match (hi, lo) {
            (Ok(h), Ok(l)) => {
                assert(h as int * 0x1_0000_0000 + l as int <= 0xffff_ffff_ffff_ffff)
                    by (nonlinear_arith)
                    requires h <= 0xffff_ffff, l <= 0xffff_ffff;
                let v: u64 = (h as u64) * 0x1_0000_0000 + l as u64;
                Ok(v)
            },
            _ => Err(ParseError::InsufficientData),
        }
    }

    /// Reads a big-endian signed 32-bit value (two's complement).
    pub fn read_i32(&mut self) -> (r: Result<i32, ParseError>)
        requires
            old(self).wf(),
        ensures
            final(self).wf(),
            final(self).bytes() == old(self).bytes(),
            match r {
                Ok(v) => 4 <= old(self).remaining() && final(self).pos() == old(self).pos() + 4
                    && v as int == as_signed32(be_u32(old(self).rest(), 0)),
                Err(e) => 4 > old(self).remaining() && e == ParseError::InsufficientData
                    && final(self).pos() == old(self).pos(),
            },
    {
        let u = self.read_u32()?;
        Ok(reinterpret_signed(u))
    }
}

/// The signed 32-bit value with the same bits as `u`.
pub fn reinterpret_signed(u: u32) -> (r: i32)
    ensures
        r as int == as_signed32(u as int),
{
    if u < 0x8000_0000 {
        u as i32
    } else {
        let d: u32 = u - 0x8000_0000;
        (d as i32) - 0x4000_0000 - 0x4000_0000
    }
}

} // verus!
