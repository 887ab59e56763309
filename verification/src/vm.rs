//! The virtual machine's memory image: a fixed-capacity, zero-initialized
//! byte region, populated only through the data segment loader's forward-only
//! allocation counter.

use vstd::prelude::*;

verus! {

/// Capacity of the memory image, in bytes (one megabyte).
pub const MEM_SIZE: usize = 1048576;

pub struct VM {
    pub mem: Vec<u8>,
}

/// `base` with `bytes` written at offset `at`.
pub open spec fn mem_written(base: Seq<u8>, at: int, bytes: Seq<u8>) -> Seq<u8>
    recommends
        0 <= at,
        at + bytes.len() <= base.len(),
{
    base.take(at) + bytes + base.skip(at + bytes.len())
}

impl VM {
    pub open spec fn wf(&self) -> bool {
        self.mem@.len() == MEM_SIZE
    }

    /// A fresh image, all bytes zero.
    pub fn new() -> (r: VM)
        ensures
            r.wf(),
            forall|i: int| 0 <= i < MEM_SIZE ==> r.mem@[i] == 0u8,
    {
        let mut m: Vec<u8> = Vec::new();
        let mut i: usize = 0;
        while i < MEM_SIZE
            invariant
                i <= MEM_SIZE,
                m@.len() == i,
                forall|k: int| 0 <= k < i ==> m@[k] == 0u8,
            decreases MEM_SIZE - i,
        {
            m.push(0u8);
            i = i + 1;
        }
        VM { mem: m }
    }

    /// Writes `bytes` at offset `at`; refused when the write would pass the
    /// end of the image.
    pub fn store_bytes(&mut self, at: usize, bytes: &Vec<u8>) -> (r: bool)
        requires
            old(self).wf(),
        ensures
            final(self).wf(),
            r == (at + bytes@.len() <= MEM_SIZE),
            r ==> final(self).mem@ == mem_written(old(self).mem@, at as int, bytes@),
            !r ==> final(self).mem@ == old(self).mem@,
    {
        if at > MEM_SIZE || bytes.len() > MEM_SIZE - at {
            return false;
        }
        let mut k: usize = 0;
        while k < bytes.len()
            invariant
                old(self).wf(),
                self.wf(),
                k <= bytes@.len(),
                at + bytes@.len() <= MEM_SIZE,
                forall|i: int|
                    0 <= i < MEM_SIZE && !(at <= i < at + k) ==> self.mem@[i] == old(self).mem@[i],
                forall|i: int| at <= i < at + k ==> self.mem@[i] == bytes@[i - at],
            decreases bytes@.len() - k,
        {
            self.mem.set(at + k, bytes[k]);
            k = k + 1;
        }
        proof {
            assert(self.mem@ =~= mem_written(old(self).mem@, at as int, bytes@));
        }
        true
    }
}

} // verus!
