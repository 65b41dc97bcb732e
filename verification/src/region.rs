//! Memory regions that hold compiled code.
//!
//! A region starts writable, receives the compiled bytes once, and is
//! then flipped to executable; there is no way back.  The trait keeps
//! the region injectable, so the pipeline can be exercised against an
//! in-memory buffer as well as a real OS mapping.

use vstd::prelude::*;

verus! {

/// A fixed-size memory region with a one-directional writable-to-executable
/// lifecycle.
pub trait MemoryRegion: Sized {
    /// The region's current contents.
    spec fn region_bytes(&self) -> Seq<u8>;

    /// Whether the region has been made executable.  Once set it never
    /// clears, and the contents never change again.
    spec fn spec_executable(&self) -> bool;

    /// Copies `data` to the start of the region, leaving the rest of the
    /// region as it was.  Returns `false` (and changes nothing) when the
    /// data does not fit.
    fn copy(&mut self, data: &[u8]) -> (ok: bool)
        requires
            !old(self).spec_executable(),
        ensures
            !final(self).spec_executable(),
            final(self).region_bytes().len() == old(self).region_bytes().len(),
            ok == (data@.len() <= old(self).region_bytes().len()),
            ok ==> final(self).region_bytes() == data@ + old(self).region_bytes().skip(
                data@.len() as int,
            ),
            !ok ==> final(self).region_bytes() == old(self).region_bytes(),
    ;

    /// Flips the region from writable to executable.  Returns `true` when
    /// the protection change failed; the contents are unchanged either way.
    fn protect(&mut self) -> (failed: bool)
        requires
            !old(self).spec_executable(),
        ensures
            final(self).region_bytes() == old(self).region_bytes(),
            !failed ==> final(self).spec_executable(),
            failed ==> !final(self).spec_executable(),
    ;
}

/// An in-memory region: a plain byte buffer with the same lifecycle as a
/// real mapping, for running the pipeline without OS support.
#[derive(Debug)]
pub struct BufferRegion {
    pub buf: Vec<u8>,
    pub executable: bool,
}

impl BufferRegion {
    /// A writable region of exactly `size` zeroed bytes.
    pub fn allocate_writable(size: usize) -> (r: BufferRegion)
        ensures
            r.buf@.len() == size,
            forall|i: int| 0 <= i < size ==> r.buf@[i] == 0u8,
            !r.executable,
    {
        let mut buf: Vec<u8> = Vec::new();
        let mut i: usize = 0;
        while i < size
            invariant
                i <= size,
                buf@.len() == i,
                forall|j: int| 0 <= j < i ==> buf@[j] == 0u8,
            decreases size - i,
        {
            buf.push(0u8);
            i = i + 1;
        }
        BufferRegion { buf, executable: false }
    }
}

impl MemoryRegion for BufferRegion {
    open spec fn region_bytes(&self) -> Seq<u8> {
        self.buf@
    }

    open spec fn spec_executable(&self) -> bool {
        self.executable
    }

    fn copy(&mut self, data: &[u8]) -> (ok: bool) {
        if data.len() > self.buf.len() {
            false
        } else {
            let mut i: usize = 0;
            while i < data.len()
                invariant
                    i <= data@.len(),
                    data@.len() <= self.buf@.len(),
                    self.buf@.len() == old(self).buf@.len(),
                    self.executable == old(self).executable,
                    forall|j: int| 0 <= j < i ==> self.buf@[j] == data@[j],
                    forall|j: int| i <= j < self.buf@.len() ==> self.buf@[j] == old(self).buf@[j],
                decreases data@.len() - i,
            {
                let b = data[i];
                self.buf.set(i, b);
                i = i + 1;
            }
            proof {
                assert(self.buf@ =~= data@ + old(self).buf@.skip(data@.len() as int));
            }
            true
        }
    }

    fn protect(&mut self) -> (failed: bool) {
        self.executable = true;
        false
    }
}

} // verus!
