//! Byte-indexed store for the story image, with big-endian word access and
//! positional reader/writer cursors.
//!
//! Every access is bounds-checked: an access whose last byte would fall
//! outside the image fails with `BadAddress` and leaves the buffer unchanged.

use crate::ZmachineError;
use vstd::prelude::*;

verus! {

/// The 16-bit big-endian word stored at `addr`.
pub open spec fn word_at(data: Seq<u8>, addr: int) -> u16 {
    ((data[addr] as int) * 256 + (data[addr + 1] as int)) as u16
}

/// High byte of a 16-bit word.
pub open spec fn word_hi(value: u16) -> u8 {
    (value / 256) as u8
}

/// Low byte of a 16-bit word.
pub open spec fn word_lo(value: u16) -> u8 {
    (value % 256) as u8
}

pub struct Buffer {
    data: Vec<u8>,
}

impl View for Buffer {
    type V = Seq<u8>;

    closed spec fn view(&self) -> Seq<u8> {
        self.data@
    }
}

impl Buffer {
    pub fn new(data: Vec<u8>) -> (r: Buffer)
        ensures
            r@ == data@,
    {
        Buffer { data }
    }

    pub fn len(&self) -> (r: usize)
        ensures
            r == self@.len(),
    {
        self.data.len()
    }

    pub fn read_byte(&self, addr: usize) -> (r: Result<u8, ZmachineError>)
        ensures
            addr < self@.len() ==> r == Ok::<u8, ZmachineError>(self@[addr as int]),
            addr >= self@.len() ==> r == Err::<u8, ZmachineError>(ZmachineError::BadAddress),
    {
        if addr < self.data.len() {
            Ok(self.data[addr])
        } else {
            Err(ZmachineError::BadAddress)
        }
    }

    pub fn read_word(&self, addr: usize) -> (r: Result<u16, ZmachineError>)
        ensures
            addr + 2 <= self@.len() ==> r == Ok::<u16, ZmachineError>(word_at(self@, addr as int)),
            addr + 2 > self@.len() ==> r == Err::<u16, ZmachineError>(ZmachineError::BadAddress),
    {
        if addr < self.data.len() && self.data.len() - addr >= 2 {
            let hi = self.data[addr];
            let lo = self.data[addr + 1];
            Ok((hi as u16) * 256 + (lo as u16))
        } else {
            Err(ZmachineError::BadAddress)
        }
    }

    pub fn write_byte(&mut self, addr: usize, value: u8) -> (r: Result<(), ZmachineError>)
        ensures
            addr < old(self)@.len() ==> {
                &&& r == Ok::<(), ZmachineError>(())
                &&& final(self)@ == old(self)@.update(addr as int, value)
            },
            addr >= old(self)@.len() ==> {
                &&& r == Err::<(), ZmachineError>(ZmachineError::BadAddress)
                &&& final(self)@ == old(self)@
            },
    {
        if addr < self.data.len() {
            self.data.set(addr, value);
            Ok(())
        } else {
            Err(ZmachineError::BadAddress)
        }
    }

    pub fn write_word(&mut self, addr: usize, value: u16) -> (r: Result<(), ZmachineError>)
        ensures
            addr + 2 <= old(self)@.len() ==> {
                &&& r == Ok::<(), ZmachineError>(())
                &&& final(self)@ == old(self)@.update(addr as int, word_hi(value)).update(
                    addr + 1,
                    word_lo(value),
                )
                &&& word_at(final(self)@, addr as int) == value
            },
            addr + 2 > old(self)@.len() ==> {
                &&& r == Err::<(), ZmachineError>(ZmachineError::BadAddress)
                &&& final(self)@ == old(self)@
            },
    {
        if addr < self.data.len() && self.data.len() - addr >= 2 {
            let hi: u8 = (value / 256) as u8;
            let lo: u8 = (value % 256) as u8;
            self.data.set(addr, hi);
            self.data.set(addr + 1, lo);
            assert(word_at(self@, addr as int) == value) by {
                assert(value == (value / 256) * 256 + value % 256);
            };
            Ok(())
        } else {
            Err(ZmachineError::BadAddress)
        }
    }

    /// Copy of the bytes in `[addr, addr + count)`.
    pub fn read(&self, addr: usize, count: usize) -> (r: Result<Vec<u8>, ZmachineError>)
        ensures
            addr + count <= self@.len() ==> {
                &&& r is Ok
                &&& r->Ok_0@ == self@.subrange(addr as int, addr + count)
            },
            addr + count > self@.len() ==> r == Err::<Vec<u8>, ZmachineError>(
                ZmachineError::BadAddress,
            ),
    {
        if addr <= self.data.len() && self.data.len() - addr >= count {
            let mut out: Vec<u8> = Vec::new();
            let mut i: usize = 0;
            while i < count
                invariant
                    addr + count <= self@.len(),
                    addr + count <= usize::MAX,
                    i <= count,
                    out@ == self@.subrange(addr as int, addr + i),
                decreases count - i,
            {
                out.push(self.data[addr + i]);
                i = i + 1;
                assert(out@ =~= self@.subrange(addr as int, addr + i));
            }
            Ok(out)
        } else {
            Err(ZmachineError::BadAddress)
        }
    }

    /// Copy of the bytes in `[from, to)`.
    pub fn slice(&self, from: usize, to: usize) -> (r: Result<Vec<u8>, ZmachineError>)
        ensures
            from <= to <= self@.len() ==> {
                &&& r is Ok
                &&& r->Ok_0@ == self@.subrange(from as int, to as int)
            },
            !(from <= to <= self@.len()) ==> r == Err::<Vec<u8>, ZmachineError>(
                ZmachineError::BadAddress,
            ),
    {
        if from <= to && to <= self.data.len() {
            self.read(from, to - from)
        } else {
            Err(ZmachineError::BadAddress)
        }
    }

    /// Overwrite the bytes at `[addr, addr + bytes.len())`.
    pub fn write(&mut self, addr: usize, bytes: &[u8]) -> (r: Result<(), ZmachineError>)
        ensures
            addr + bytes@.len() <= old(self)@.len() ==> {
                &&& r == Ok::<(), ZmachineError>(())
                &&& final(self)@.len() == old(self)@.len()
                &&& forall|i: int|
                    addr <= i < addr + bytes@.len() ==> final(self)@[i] == bytes@[i - addr]
                &&& forall|i: int|
                    0 <= i < old(self)@.len() && !(addr <= i < addr + bytes@.len())
                        ==> final(self)@[i] == old(self)@[i]
            },
            addr + bytes@.len() > old(self)@.len() ==> {
                &&& r == Err::<(), ZmachineError>(ZmachineError::BadAddress)
                &&& final(self)@ == old(self)@
            },
    {
        let count = bytes.len();
        if addr <= self.data.len() && self.data.len() - addr >= count {
            let mut i: usize = 0;
            while i < count
                invariant
                    addr + count <= self.data@.len(),
                    addr + count <= usize::MAX,
                    count == bytes@.len(),
                    i <= count,
                    self.data@.len() == old(self)@.len(),
                    forall|j: int| addr <= j < addr + i ==> self.data@[j] == bytes@[j - addr],
                    forall|j: int|
                        0 <= j < self.data@.len() && !(addr <= j < addr + i) ==> self.data@[j]
                            == old(self)@[j],
                decreases count - i,
            {
                let b = bytes[i];
                self.data.set(addr + i, b);
                i = i + 1;
            }
            Ok(())
        } else {
            Err(ZmachineError::BadAddress)
        }
    }
}

/// A read cursor: remembers a position in the buffer and advances on each
/// access. The buffer itself is passed to each call.
pub struct BufReader {
    pub pos: usize,
}

impl BufReader {
    pub fn new(pos: usize) -> (r: BufReader)
        ensures
            r.pos == pos,
    {
        BufReader { pos }
    }

    pub fn position(&self) -> (r: usize)
        ensures
            r == self.pos,
    {
        self.pos
    }

    pub fn byte(&mut self, buf: &Buffer) -> (r: Result<u8, ZmachineError>)
        ensures
            old(self).pos + 1 <= buf@.len() ==> {
                &&& r == Ok::<u8, ZmachineError>(buf@[old(self).pos as int])
                &&& final(self).pos == old(self).pos + 1
            },
            old(self).pos + 1 > buf@.len() ==> r == Err::<u8, ZmachineError>(
                ZmachineError::BadAddress,
            ),
    {
        let n = buf.len();
        if self.pos < n {
            let b = buf.read_byte(self.pos)?;
            self.pos = self.pos + 1;
            Ok(b)
        } else {
            Err(ZmachineError::BadAddress)
        }
    }

    pub fn word(&mut self, buf: &Buffer) -> (r: Result<u16, ZmachineError>)
        ensures
            old(self).pos + 2 <= buf@.len() ==> {
                &&& r == Ok::<u16, ZmachineError>(word_at(buf@, old(self).pos as int))
                &&& final(self).pos == old(self).pos + 2
            },
            old(self).pos + 2 > buf@.len() ==> r == Err::<u16, ZmachineError>(
                ZmachineError::BadAddress,
            ),
    {
        let n = buf.len();
        if self.pos < n && n - self.pos >= 2 {
            let w = buf.read_word(self.pos)?;
            self.pos = self.pos + 2;
            Ok(w)
        } else {
            Err(ZmachineError::BadAddress)
        }
    }
}

/// A write cursor: remembers a position and advances on each write.
pub struct BufWriter {
    pub pos: usize,
}

impl BufWriter {
    pub fn new(pos: usize) -> (r: BufWriter)
        ensures
            r.pos == pos,
    {
        BufWriter { pos }
    }

    pub fn position(&self) -> (r: usize)
        ensures
            r == self.pos,
    {
        self.pos
    }

    pub fn byte(&mut self, buf: &mut Buffer, value: u8) -> (r: Result<(), ZmachineError>)
        ensures
            old(self).pos + 1 <= old(buf)@.len() ==> {
                &&& r == Ok::<(), ZmachineError>(())
                &&& final(buf)@ == old(buf)@.update(old(self).pos as int, value)
                &&& final(self).pos == old(self).pos + 1
            },
            old(self).pos + 1 > old(buf)@.len() ==> {
                &&& r == Err::<(), ZmachineError>(ZmachineError::BadAddress)
                &&& final(buf)@ == old(buf)@
            },
    {
        let n = buf.len();
        if self.pos < n {
            buf.write_byte(self.pos, value)?;
            self.pos = self.pos + 1;
            Ok(())
        } else {
            Err(ZmachineError::BadAddress)
        }
    }

    pub fn word(&mut self, buf: &mut Buffer, value: u16) -> (r: Result<(), ZmachineError>)
        ensures
            old(self).pos + 2 <= old(buf)@.len() ==> {
                &&& r == Ok::<(), ZmachineError>(())
                &&& final(buf)@ == old(buf)@.update(old(self).pos as int, word_hi(value)).update(
                    old(self).pos + 1,
                    word_lo(value),
                )
                &&& final(self).pos == old(self).pos + 2
            },
            old(self).pos + 2 > old(buf)@.len() ==> {
                &&& r == Err::<(), ZmachineError>(ZmachineError::BadAddress)
                &&& final(buf)@ == old(buf)@
            },
    {
        let n = buf.len();
        if self.pos < n && n - self.pos >= 2 {
            buf.write_word(self.pos, value)?;
            self.pos = self.pos + 2;
            Ok(())
        } else {
            Err(ZmachineError::BadAddress)
        }
    }
}

} // verus!
