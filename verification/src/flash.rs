//! The storage capability the update engine runs against: byte-addressed
//! reads and writes on a flash device, modelled as a sequence of bytes.
//!
//! Production code implements [`FlashStorage`] over the real device (which is
//! assumed erase-ready for the bytes being written; this crate performs no
//! erase). [`RamFlash`] is a verified in-memory implementation.

use crate::structs::OtaError;
use vstd::prelude::*;

verus! {

/// `fm` with the bytes at `off ..= off + data.len()` replaced by `data`;
/// everything else, including the length, unchanged.
pub open spec fn store_bytes(fm: Seq<u8>, off: int, data: Seq<u8>) -> Seq<u8> {
    fm.map(
        |i: int, b: u8|
            if off <= i && i < off + data.len() {
                data[i - off]
            } else {
                b
            },
    )
}

/// A byte-addressed storage device. Reads never change the contents; a
/// write, even a failed one, touches only the addressed range. Either
/// operation may fail (surfaced as `FlashRWError`); success is up to the
/// device and is never promised.
pub trait FlashStorage: Sized {
    /// The device's current contents, one byte per address.
    spec fn contents(&self) -> Seq<u8>;

    /// Reads `len` bytes starting at `offset`.
    fn read(&mut self, offset: u32, len: u32) -> (r: Result<Vec<u8>, OtaError>)
        ensures
            final(self).contents() == old(self).contents(),
            (match r {
                Ok(data) => {
                    &&& offset + len <= old(self).contents().len()
                    &&& data@ == old(self).contents().subrange(offset as int, offset + len)
                },
                Err(e) => e == OtaError::FlashRWError,
            }),
    ;

    /// Writes `data` starting at `offset`.
    fn write(&mut self, offset: u32, data: &[u8]) -> (r: Result<(), OtaError>)
        ensures
            final(self).contents().len() == old(self).contents().len(),
            forall|i: int|
                0 <= i < old(self).contents().len() && !(offset <= i < offset + data@.len())
                    ==> final(self).contents()[i] == old(self).contents()[i],
            (match r {
                Ok(()) => {
                    &&& offset + data@.len() <= old(self).contents().len()
                    &&& final(self).contents() == store_bytes(
                        old(self).contents(),
                        offset as int,
                        data@,
                    )
                },
                Err(e) => e == OtaError::FlashRWError,
            }),
    ;
}

/// An in-memory flash device; out-of-range accesses fail, everything else
/// succeeds.
pub struct RamFlash {
    pub data: Vec<u8>,
}

impl RamFlash {
    /// A device of `size` bytes, all erased (0xFF).
    pub fn new_erased(size: usize) -> (r: RamFlash)
        ensures
            r.contents().len() == size,
            forall|i: int| 0 <= i < size ==> r.contents()[i] == 0xFFu8,
    {
        RamFlash { data: vec![0xFFu8; size] }
    }

    /// A device holding exactly `data`.
    pub fn from_vec(data: Vec<u8>) -> (r: RamFlash)
        ensures
            r.contents() == data@,
    {
        RamFlash { data }
    }
}

impl FlashStorage for RamFlash {
    open spec fn contents(&self) -> Seq<u8> {
        self.data@
    }

    fn read(&mut self, offset: u32, len: u32) -> (r: Result<Vec<u8>, OtaError>)
        ensures
            offset + len <= old(self).data@.len() ==> r is Ok,
    {
        let cap = self.data.len();
        if (offset as u64) + (len as u64) <= cap as u64 {
            let mut out: Vec<u8> = Vec::new();
            let mut i: usize = 0;
            while i < len as usize
                invariant
                    i <= len,
                    offset + len <= cap,
                    cap == self.data@.len(),
                    out@ == self.data@.subrange(offset as int, offset + i),
                decreases len as int - i,
            {
                out.push(self.data[offset as usize + i]);
                proof {
                    assert(self.data@.subrange(offset as int, offset + i + 1) =~= self.data@
                        .subrange(offset as int, offset + i).push(
                        self.data@[offset + i],
                    ));
                }
                i += 1;
            }
            Ok(out)
        } else {
            Err(OtaError::FlashRWError)
        }
    }

    fn write(&mut self, offset: u32, data: &[u8]) -> (r: Result<(), OtaError>)
        ensures
            offset + data@.len() <= old(self).data@.len() ==> r is Ok,
    {
        let cap = self.data.len();
        let n = data.len();
        if (offset as u64) <= cap as u64 && (n as u64) <= (cap as u64) - (offset as u64) {
            let mut i: usize = 0;
            while i < data.len()
                invariant
                    i <= data@.len(),
                    offset + data@.len() <= cap,
                    cap == self.data@.len(),
                    self.data@.len() == old(self).data@.len(),
                    forall|j: int|
                        0 <= j < self.data@.len() && !(offset <= j < offset + i)
                            ==> self.data@[j] == old(self).data@[j],
                    forall|j: int|
                        0 <= j < i ==> self.data@[offset + j] == data@[j],
                decreases data@.len() - i,
            {
                self.data[offset as usize + i] = data[i];
                i += 1;
            }
            proof {
                assert(self.data@ =~= store_bytes(old(self).data@, offset as int, data@));
            }
            Ok(())
        } else {
            Err(OtaError::FlashRWError)
        }
    }
}

} // verus!
