use vstd::prelude::*;

verus! {

/// Value of two bytes read little-endian.
pub open spec fn spec_u16_le(b0: u8, b1: u8) -> int {
    b0 + 256 * b1
}

/// Value of four bytes read little-endian, unsigned.
pub open spec fn spec_u32_le(b0: u8, b1: u8, b2: u8, b3: u8) -> int {
    b0 + 256 * (b1 + 256 * (b2 + 256 * b3))
}

/// Value of four bytes read little-endian, as a signed (two's complement)
/// 32-bit integer.
pub open spec fn spec_i32_le(b0: u8, b1: u8, b2: u8, b3: u8) -> int {
    let u = spec_u32_le(b0, b1, b2, b3);
    if u >= 0x8000_0000 {
        u - 0x1_0000_0000
    } else {
        u
    }
}

/// Bounds-checked sequential byte reader over an in-memory buffer with
/// little-endian fixed-width integer decoding. A read that would pass the
/// end of the buffer returns `None` and leaves the position unchanged;
/// `skip` clamps to the buffer length. No read ever goes out of bounds.
pub struct BinaryCursor {
    pub data: Vec<u8>,
    pub pos: usize,
}

impl BinaryCursor {
    pub open spec fn wf(self) -> bool {
        self.pos <= self.data@.len()
    }

    pub fn new(data: Vec<u8>) -> (c: Self)
        ensures
            c.data@ == data@,
            c.pos == 0,
            c.wf(),
    {
        BinaryCursor { data, pos: 0 }
    }

    pub fn read_u8(&mut self) -> (r: Option<u8>)
        requires
            old(self).wf(),
        ensures
            final(self).data@ == old(self).data@,
            final(self).wf(),
            final(self).pos >= old(self).pos,
            old(self).pos + 1 <= old(self).data@.len() ==> {
                &&& r == Some(old(self).data@[old(self).pos as int])
                &&& final(self).pos == old(self).pos + 1
            },
            old(self).pos + 1 > old(self).data@.len() ==> {
                &&& r is None
                &&& final(self).pos == old(self).pos
            },
    {
        if self.pos < self.data.len() {
            let val = self.data[self.pos];
            self.pos = self.pos + 1;
            Some(val)
        } else {
            None
        }
    }

    pub fn read_u16_le(&mut self) -> (r: Option<u16>)
        requires
            old(self).wf(),
        ensures
            final(self).data@ == old(self).data@,
            final(self).wf(),
            final(self).pos >= old(self).pos,
            old(self).pos + 2 <= old(self).data@.len() ==> {
                &&& r == Some(
                    (spec_u16_le(
                        old(self).data@[old(self).pos as int],
                        old(self).data@[old(self).pos + 1],
                    )) as u16,
                )
                &&& final(self).pos == old(self).pos + 2
            },
            old(self).pos + 2 > old(self).data@.len() ==> {
                &&& r is None
                &&& final(self).pos == old(self).pos
            },
    {
        if self.data.len() - self.pos >= 2 {
            let b0 = self.data[self.pos];
            let b1 = self.data[self.pos + 1];
            self.pos = self.pos + 2;
            Some((b0 as u16) + 256 * (b1 as u16))
        } else {
            None
        }
    }

    pub fn read_u32_le(&mut self) -> (r: Option<u32>)
        requires
            old(self).wf(),
        ensures
            final(self).data@ == old(self).data@,
            final(self).wf(),
            final(self).pos >= old(self).pos,
            old(self).pos + 4 <= old(self).data@.len() ==> {
                &&& r == Some(
                    (spec_u32_le(
                        old(self).data@[old(self).pos as int],
                        old(self).data@[old(self).pos + 1],
                        old(self).data@[old(self).pos + 2],
                        old(self).data@[old(self).pos + 3],
                    )) as u32,
                )
                &&& final(self).pos == old(self).pos + 4
            },
            old(self).pos + 4 > old(self).data@.len() ==> {
                &&& r is None
                &&& final(self).pos == old(self).pos
            },
    {
        if self.data.len() - self.pos >= 4 {
            let b0 = self.data[self.pos];
            let b1 = self.data[self.pos + 1];
            let b2 = self.data[self.pos + 2];
            let b3 = self.data[self.pos + 3];
            self.pos = self.pos + 4;
            Some((b0 as u32) + 256 * ((b1 as u32) + 256 * ((b2 as u32) + 256 * (b3 as u32))))
        } else {
            None
        }
    }

    pub fn read_i32_le(&mut self) -> (r: Option<i32>)
        requires
            old(self).wf(),
        ensures
            final(self).data@ == old(self).data@,
            final(self).wf(),
            final(self).pos >= old(self).pos,
            old(self).pos + 4 <= old(self).data@.len() ==> {
                &&& r == Some(
                    (spec_i32_le(
                        old(self).data@[old(self).pos as int],
                        old(self).data@[old(self).pos + 1],
                        old(self).data@[old(self).pos + 2],
                        old(self).data@[old(self).pos + 3],
                    )) as i32,
                )
                &&& final(self).pos == old(self).pos + 4
            },
            old(self).pos + 4 > old(self).data@.len() ==> {
                &&& r is None
                &&& final(self).pos == old(self).pos
            },
    {
        if self.data.len() - self.pos >= 4 {
            let b0 = self.data[self.pos];
            let b1 = self.data[self.pos + 1];
            let b2 = self.data[self.pos + 2];
            let b3 = self.data[self.pos + 3];
            self.pos = self.pos + 4;
            let u: i64 = (b0 as i64) + 256 * ((b1 as i64) + 256 * ((b2 as i64) + 256 * (b3 as i64)));
            let v: i64 = if u >= 0x8000_0000 {
                u - 0x1_0000_0000
            } else {
                u
            };
            Some(v as i32)
        } else {
            None
        }
    }

    /// Advances the position by `n` bytes, clamped to the buffer length.
    pub fn skip(&mut self, n: usize)
        requires
            old(self).wf(),
        ensures
            final(self).data@ == old(self).data@,
            final(self).wf(),
            final(self).pos >= old(self).pos,
            final(self).pos == if old(self).pos + n <= old(self).data@.len() {
                old(self).pos + n
            } else {
                old(self).data@.len() as int
            },
    {
        if n > self.data.len() - self.pos {
            self.pos = self.data.len();
        } else {
            self.pos = self.pos + n;
        }
    }
}

} // verus!
