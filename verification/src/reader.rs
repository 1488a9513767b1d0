use vstd::prelude::*;
use vstd::slice::{slice_subrange, slice_to_vec};
use crate::errors::PakReaderError;

verus! {

/// Little-endian unsigned value of the 2 bytes of `s` starting at `i`.
pub open spec fn le16_at(s: Seq<u8>, i: int) -> int {
    s[i] + 0x100 * s[i + 1]
}

/// Little-endian unsigned value of the 4 bytes of `s` starting at `i`.
pub open spec fn le32_at(s: Seq<u8>, i: int) -> int {
    s[i] + 0x100 * s[i + 1] + 0x10000 * s[i + 2] + 0x1000000 * s[i + 3]
}

/// Little-endian unsigned value of the 8 bytes of `s` starting at `i`.
pub open spec fn le64_at(s: Seq<u8>, i: int) -> int {
    s[i] + 0x100 * s[i + 1] + 0x10000 * s[i + 2] + 0x1000000 * s[i + 3]
        + 0x100000000 * s[i + 4] + 0x10000000000 * s[i + 5] + 0x1000000000000 * s[i + 6]
        + 0x100000000000000 * s[i + 7]
}

/// Little-endian two's-complement value of the 4 bytes of `s` starting at `i`.
pub open spec fn ile32_at(s: Seq<u8>, i: int) -> int {
    if le32_at(s, i) < 0x80000000 {
        le32_at(s, i)
    } else {
        le32_at(s, i) - 0x100000000
    }
}

/// Little-endian two's-complement value of the 8 bytes of `s` starting at `i`.
pub open spec fn ile64_at(s: Seq<u8>, i: int) -> int {
    if le64_at(s, i) < 0x8000000000000000 {
        le64_at(s, i)
    } else {
        le64_at(s, i) - 0x10000000000000000
    }
}

/// Where a seek lands: a negative index counts back from the end of the bytes.
pub open spec fn seek_target(len: int, index: int) -> int {
    if index < 0 {
        len + index
    } else {
        index
    }
}

/// A random-access reader over one archive's complete backing bytes: the
/// byte sequence plus one shared read position.
pub struct PakReader {
    data: Vec<u8>,
    pos: usize,
}

impl PakReader {
    /// The full backing byte sequence.
    pub closed spec fn data_spec(&self) -> Seq<u8> {
        self.data@
    }

    /// The current read position.
    pub closed spec fn pos_spec(&self) -> int {
        self.pos as int
    }

    /// The position never runs past the end of the backing bytes.
    pub open spec fn wf(&self) -> bool {
        0 <= self.pos_spec() <= self.data_spec().len()
    }

    /// At least `n` more bytes can be read from the current position.
    pub open spec fn can_read(&self, n: int) -> bool {
        self.pos_spec() + n <= self.data_spec().len()
    }

    pub fn new(buffer: Vec<u8>) -> (r: Self)
        ensures
            r.wf(),
            r.data_spec() == buffer@,
            r.pos_spec() == 0,
    {
        PakReader { data: buffer, pos: 0 }
    }

    pub fn position(&self) -> (r: usize)
        ensures
            r as int == self.pos_spec(),
    {
        self.pos
    }

    pub fn data_len(&self) -> (r: usize)
        ensures
            r as int == self.data_spec().len(),
    {
        self.data.len()
    }

    pub fn set_position(&mut self, p: usize)
        requires
            p <= old(self).data_spec().len(),
        ensures
            final(self).wf(),
            final(self).data_spec() == old(self).data_spec(),
            final(self).pos_spec() == p as int,
    {
        self.pos = p;
    }

    /// Seek to `index`, counting back from the end when `index` is negative.
    pub fn seek_index(&mut self, index: i64) -> (r: Result<(), PakReaderError>)
        requires
            old(self).wf(),
        ensures
            final(self).wf(),
            final(self).data_spec() == old(self).data_spec(),
            0 <= seek_target(old(self).data_spec().len() as int, index as int)
                <= old(self).data_spec().len() ==> {
                &&& r is Ok
                &&& final(self).pos_spec() == seek_target(
                    old(self).data_spec().len() as int,
                    index as int,
                )
            },
            !(0 <= seek_target(old(self).data_spec().len() as int, index as int)
                <= old(self).data_spec().len()) ==> {
                &&& r == Err::<(), PakReaderError>(PakReaderError::ReadError)
                &&& final(self).pos_spec() == old(self).pos_spec()
            },
    {
        let len = self.data.len();
        if index >= 0 {
            if (index as u64) <= (len as u64) {
                self.pos = index as usize;
                Ok(())
            } else {
                Err(PakReaderError::ReadError)
            }
        } else {
            let back: u64 = if index == i64::MIN {
                0x8000000000000000u64
            } else {
                (-index) as u64
            };
            if back <= (len as u64) {
                self.pos = len - (back as usize);
                Ok(())
            } else {
                Err(PakReaderError::ReadError)
            }
        }
    }

    /// Read exactly `n` bytes, advancing the position past them.
    pub fn read_bytes(&mut self, n: usize) -> (r: Result<Vec<u8>, PakReaderError>)
        requires
            old(self).wf(),
        ensures
            final(self).wf(),
            final(self).data_spec() == old(self).data_spec(),
            old(self).can_read(n as int) ==> {
                &&& r is Ok
                &&& r->Ok_0@ == old(self).data_spec().subrange(
                    old(self).pos_spec(),
                    old(self).pos_spec() + n,
                )
                &&& final(self).pos_spec() == old(self).pos_spec() + n
            },
            !old(self).can_read(n as int) ==> {
                &&& r == Err::<Vec<u8>, PakReaderError>(PakReaderError::ReadError)
                &&& final(self).pos_spec() == old(self).pos_spec()
            },
    {
        if n <= self.data.len() - self.pos {
            let s = slice_subrange(self.data.as_slice(), self.pos, self.pos + n);
            let v = slice_to_vec(s);
            self.pos = self.pos + n;
            Ok(v)
        } else {
            Err(PakReaderError::ReadError)
        }
    }

    pub fn read_u8(&mut self) -> (r: Result<u8, PakReaderError>)
        requires
            old(self).wf(),
        ensures
            final(self).wf(),
            final(self).data_spec() == old(self).data_spec(),
            old(self).can_read(1) ==> {
                &&& r == Ok::<u8, PakReaderError>(
                    old(self).data_spec()[old(self).pos_spec()],
                )
                &&& final(self).pos_spec() == old(self).pos_spec() + 1
            },
            !old(self).can_read(1) ==> {
                &&& r == Err::<u8, PakReaderError>(PakReaderError::ReadError)
                &&& final(self).pos_spec() == old(self).pos_spec()
            },
    {
        if 1 <= self.data.len() - self.pos {
            let b = self.data[self.pos];
            self.pos = self.pos + 1;
            Ok(b)
        } else {
            Err(PakReaderError::ReadError)
        }
    }

    pub fn read_u16(&mut self) -> (r: Result<u16, PakReaderError>)
        requires
            old(self).wf(),
        ensures
            final(self).wf(),
            final(self).data_spec() == old(self).data_spec(),
            old(self).can_read(2) ==> {
                &&& r is Ok
                &&& r->Ok_0 as int == le16_at(old(self).data_spec(), old(self).pos_spec())
                &&& final(self).pos_spec() == old(self).pos_spec() + 2
            },
            !old(self).can_read(2) ==> {
                &&& r == Err::<u16, PakReaderError>(PakReaderError::ReadError)
                &&& final(self).pos_spec() == old(self).pos_spec()
            },
    {
        if 2 <= self.data.len() - self.pos {
            let b0 = self.data[self.pos] as u16;
            let b1 = self.data[self.pos + 1] as u16;
            self.pos = self.pos + 2;
            Ok(b0 + 0x100 * b1)
        } else {
            Err(PakReaderError::ReadError)
        }
    }

    pub fn read_u32(&mut self) -> (r: Result<u32, PakReaderError>)
        requires
            old(self).wf(),
        ensures
            final(self).wf(),
            final(self).data_spec() == old(self).data_spec(),
            old(self).can_read(4) ==> {
                &&& r is Ok
                &&& r->Ok_0 as int == le32_at(old(self).data_spec(), old(self).pos_spec())
                &&& final(self).pos_spec() == old(self).pos_spec() + 4
            },
            !old(self).can_read(4) ==> {
                &&& r == Err::<u32, PakReaderError>(PakReaderError::ReadError)
                &&& final(self).pos_spec() == old(self).pos_spec()
            },
    {
        if 4 <= self.data.len() - self.pos {
            let b0 = self.data[self.pos] as u32;
            let b1 = self.data[self.pos + 1] as u32;
            let b2 = self.data[self.pos + 2] as u32;
            let b3 = self.data[self.pos + 3] as u32;
            self.pos = self.pos + 4;
            Ok(b0 + 0x100 * b1 + 0x10000 * b2 + 0x1000000 * b3)
        } else {
            Err(PakReaderError::ReadError)
        }
    }

    pub fn read_u64(&mut self) -> (r: Result<u64, PakReaderError>)
        requires
            old(self).wf(),
        ensures
            final(self).wf(),
            final(self).data_spec() == old(self).data_spec(),
            old(self).can_read(8) ==> {
                &&& r is Ok
                &&& r->Ok_0 as int == le64_at(old(self).data_spec(), old(self).pos_spec())
                &&& final(self).pos_spec() == old(self).pos_spec() + 8
            },
            !old(self).can_read(8) ==> {
                &&& r == Err::<u64, PakReaderError>(PakReaderError::ReadError)
                &&& final(self).pos_spec() == old(self).pos_spec()
            },
    {
        if 8 <= self.data.len() - self.pos {
            let b0 = self.data[self.pos] as u64;
            let b1 = self.data[self.pos + 1] as u64;
            let b2 = self.data[self.pos + 2] as u64;
            let b3 = self.data[self.pos + 3] as u64;
            let b4 = self.data[self.pos + 4] as u64;
            let b5 = self.data[self.pos + 5] as u64;
            let b6 = self.data[self.pos + 6] as u64;
            let b7 = self.data[self.pos + 7] as u64;
            self.pos = self.pos + 8;
            Ok(
                b0 + 0x100 * b1 + 0x10000 * b2 + 0x1000000 * b3 + 0x100000000 * b4
                    + 0x10000000000 * b5 + 0x1000000000000 * b6 + 0x100000000000000 * b7,
            )
        } else {
            Err(PakReaderError::ReadError)
        }
    }

    pub fn read_i32(&mut self) -> (r: Result<i32, PakReaderError>)
        requires
            old(self).wf(),
        ensures
            final(self).wf(),
            final(self).data_spec() == old(self).data_spec(),
            old(self).can_read(4) ==> {
                &&& r is Ok
                &&& r->Ok_0 as int == ile32_at(old(self).data_spec(), old(self).pos_spec())
                &&& final(self).pos_spec() == old(self).pos_spec() + 4
            },
            !old(self).can_read(4) ==> {
                &&& r == Err::<i32, PakReaderError>(PakReaderError::ReadError)
                &&& final(self).pos_spec() == old(self).pos_spec()
            },
    {
        match self.read_u32() {
            Ok(v) => {
                if v >= 0x80000000 {
                    Ok(-((u32::MAX - v) as i32) - 1)
                } else {
                    Ok(v as i32)
                }
            },
            Err(e) => Err(e),
        }
    }

    pub fn read_i64(&mut self) -> (r: Result<i64, PakReaderError>)
        requires
            old(self).wf(),
        ensures
            final(self).wf(),
            final(self).data_spec() == old(self).data_spec(),
            old(self).can_read(8) ==> {
                &&& r is Ok
                &&& r->Ok_0 as int == ile64_at(old(self).data_spec(), old(self).pos_spec())
                &&& final(self).pos_spec() == old(self).pos_spec() + 8
            },
            !old(self).can_read(8) ==> {
                &&& r == Err::<i64, PakReaderError>(PakReaderError::ReadError)
                &&& final(self).pos_spec() == old(self).pos_spec()
            },
    {
        match self.read_u64() {
            Ok(v) => {
                if v >= 0x8000000000000000 {
                    Ok(-((u64::MAX - v) as i64) - 1)
                } else {
                    Ok(v as i64)
                }
            },
            Err(e) => Err(e),
        }
    }
}

} // verus!
