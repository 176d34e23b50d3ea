//! Host-side and device-side array views.
//!
//! A view never owns or copies elements: it pairs storage with an element
//! offset, a shape and signed strides.  A `HostArray` is backed by a host
//! vector of 32-bit words; a `WgpuArray` is backed by a shared device buffer
//! together with the synthetic pointer the buffer arena assigned to it.
//! Uploading copies a host view's logical elements, in row-major order, into
//! a fresh dense device buffer; downloading copies a device buffer back and
//! decodes it into words.

use vstd::prelude::*;
use std::sync::Arc;
use crate::arena::{BufferArena, ArenaRegion, region_contains};
use crate::bytes::{decode_words, lemma_words_bytes_roundtrip};
use crate::device::{
    buffer_contents, buffer_len, clone_buffer_handle, max_buffer_bytes, storage_usable, WgpuDevice,
};
use crate::device::{copy_to_staging, map_and_read};
use crate::indexing::{
    count_of, default_strides_of, ints_of_isizes, ints_of_usizes, protocol_bounds,
    strided_offset, view_ok, elem_count, strided_index, default_strides, lemma_count_pos,
};

verus! {

/// A dense-storage host array view: a vector of 32-bit words with an element
/// offset, a shape and signed strides, in element units.
pub struct HostArray {
    pub data: Vec<u32>,
    pub dim: Vec<usize>,
    pub strides: Vec<isize>,
    pub offset: usize,
}

impl HostArray {
    /// The extents as integers.
    pub open spec fn sh(self) -> Seq<int> {
        ints_of_usizes(self.dim@)
    }

    /// The strides as integers.
    pub open spec fn st(self) -> Seq<int> {
        ints_of_isizes(self.strides@)
    }

    /// The number of logical elements.
    pub open spec fn logical_count(self) -> int {
        count_of(self.sh())
    }

    /// Shape and strides fit the dispatch protocol and every logical index
    /// resolves inside the data vector.
    pub open spec fn wf(self) -> bool {
        &&& protocol_bounds(self.sh(), self.st())
        &&& view_ok(self.data@.len() as int, self.offset as int, self.sh(), self.st())
    }

    /// The logical elements in row-major order.
    pub open spec fn logical(self) -> Seq<u32> {
        Seq::new(
            self.logical_count() as nat,
            |id: int| self.data@[self.offset + strided_offset(self.sh(), self.st(), id)],
        )
    }

    /// A dense row-major view covering its whole storage from offset zero.
    pub open spec fn is_dense(self) -> bool {
        &&& self.offset == 0
        &&& self.st() == default_strides_of(self.sh())
        &&& self.data@.len() == self.logical_count()
    }

    /// Materialize the logical elements in row-major order: the stride-aware
    /// reconstruction that turns physically laid-out storage into the array
    /// a row-major walk of the view would produce.
    pub fn logical_elements(&self) -> (r: Vec<u32>)
        requires
            self.wf(),
        ensures
            r@ == self.logical(),
    {
        let n = elem_count(&self.dim);
        let data_len = self.data.len();
        proof {
            assert(self.data@.len() == data_len);
        }
        let mut out: Vec<u32> = Vec::new();
        let mut id: usize = 0;
        while id < n
            invariant
                id <= n,
                n as int == self.logical_count(),
                self.wf(),
                self.data@.len() <= usize::MAX,
                out@.len() == id,
                forall|j: int| 0 <= j < id ==> #[trigger] out@[j] == self.logical()[j],
            decreases n - id,
        {
            let flat = strided_index(&self.dim, &self.strides, self.offset, id);
            out.push(self.data[flat]);
            id = id + 1;
        }
        proof {
            assert(out@ =~= self.logical());
        }
        out
    }
}

/// A device-side array view: a shared device buffer, the synthetic pointer
/// the arena assigned to the viewed element range, the buffer's length in
/// words, and the view's shape and strides.
pub struct WgpuArray {
    pub storage_buffer: Arc<wgpu::Buffer>,
    pub ptr: usize,
    pub len: usize,
    pub dim: Vec<usize>,
    pub strides: Vec<isize>,
}

impl WgpuArray {
    /// The extents as integers.
    pub open spec fn sh(self) -> Seq<int> {
        ints_of_usizes(self.dim@)
    }

    /// The strides as integers.
    pub open spec fn st(self) -> Seq<int> {
        ints_of_isizes(self.strides@)
    }

    /// The number of logical elements.
    pub open spec fn logical_count(self) -> int {
        count_of(self.sh())
    }

    /// Shape and strides fit the dispatch protocol, `len` is the buffer's
    /// word count, and the buffer carries the library's storage usage (so it
    /// may be bound as storage and copied from).
    pub open spec fn wf(self) -> bool {
        &&& protocol_bounds(self.sh(), self.st())
        &&& buffer_len(&*self.storage_buffer) == self.len
        &&& storage_usable(&*self.storage_buffer)
    }

    /// The view is backed by the arena: its synthetic pointer falls in a
    /// region that resolves to its own buffer, at a word-aligned offset from
    /// which every logical index stays inside the buffer.
    pub open spec fn registered(self, arena: BufferArena<Arc<wgpu::Buffer>>) -> bool {
        exists|i: int|
            0 <= i < arena.regions@.len() && #[trigger] self.region_backs(arena.regions@[i])
    }

    /// Whether one arena region backs this view.
    pub open spec fn region_backs(self, r: ArenaRegion<Arc<wgpu::Buffer>>) -> bool {
        &&& region_contains(r, self.ptr)
        &&& r.buffer == self.storage_buffer
        &&& ((self.ptr - r.start) as int) % 4 == 0
        &&& view_ok(self.len as int, ((self.ptr - r.start) as int) / 4, self.sh(), self.st())
    }

    /// Copy the whole backing buffer to a staging buffer, map it, and decode
    /// its raw bytes into words; `None` when the device reports a mapping
    /// error.
    pub fn get_data(&self, dev: &WgpuDevice) -> (r: Option<Vec<u32>>)
        requires
            self.wf(),
            4 * self.len <= max_buffer_bytes(),
        ensures
            r matches Some(w) ==> w@ == buffer_contents(&*self.storage_buffer),
            r matches Some(w) ==> w@.len() == self.len,
    {
        let size: u64 = (self.len as u64) * 4;
        let staging = dev.create_staging_buffer(size);
        let staging = copy_to_staging(&dev.device, &dev.queue, &self.storage_buffer, staging, size);
        match map_and_read(&dev.device, staging) {
            None => None,
            Some(bytes) => {
                proof {
                    lemma_words_bytes_roundtrip(buffer_contents(&*self.storage_buffer));
                }
                Some(decode_words(&bytes))
            },
        }
    }

    /// Materialize a host array from this view: the downloaded buffer words
    /// together with the view's element offset, shape and strides; `None`
    /// when the pointer does not resolve or the device reports a mapping
    /// error.
    pub fn into_cpu(&self, dev: &WgpuDevice) -> (r: Option<HostArray>)
        requires
            self.wf(),
            dev.arena.wf(),
            4 * self.len <= max_buffer_bytes(),
        ensures
            r matches Some(h) ==> {
                &&& h.data@ == buffer_contents(&*self.storage_buffer)
                &&& h.dim@ == self.dim@
                &&& h.strides@ == self.strides@
                &&& forall|i: int|
                    0 <= i < dev.arena.regions@.len() && region_contains(
                        #[trigger] dev.arena.regions@[i],
                        self.ptr,
                    ) ==> h.offset as int == ((self.ptr - dev.arena.regions@[i].start) as int) / 4
            },
            r is Some ==> dev.arena.resolves(self.ptr),
    {
        let offset = match dev.ptr_to_offset(self.ptr) {
            None => {
                return None;
            },
            Some(o) => o,
        };
        match self.get_data(dev) {
            None => None,
            Some(data) => Some(
                HostArray {
                    data,
                    dim: clone_usizes(&self.dim),
                    strides: clone_isizes(&self.strides),
                    offset,
                },
            ),
        }
    }
}

impl Clone for WgpuArray {
    /// A shallow copy: device buffers are immutable once their producing
    /// compute stage has finished, so views share one buffer and never deep
    /// copy.
    fn clone(&self) -> (r: Self)
        ensures
            r.storage_buffer == self.storage_buffer,
            r.ptr == self.ptr,
            r.len == self.len,
            r.dim@ == self.dim@,
            r.strides@ == self.strides@,
    {
        WgpuArray {
            storage_buffer: clone_buffer_handle(&self.storage_buffer),
            ptr: self.ptr,
            len: self.len,
            dim: clone_usizes(&self.dim),
            strides: clone_isizes(&self.strides),
        }
    }
}

/// Upload a host view to the device: copy its logical elements, in row-major
/// order, into a fresh dense storage buffer, register the buffer in the
/// arena, and return a dense device view of it.
pub fn upload(dev: &mut WgpuDevice, host: &HostArray) -> (r: WgpuArray)
    requires
        host.wf(),
        old(dev).arena.wf(),
        old(dev).arena.can_allocate(4 * host.logical_count(), 4),
        4 * host.logical_count() <= max_buffer_bytes(),
    ensures
        final(dev).arena.wf(),
        final(dev).device == old(dev).device,
        final(dev).adapter == old(dev).adapter,
        final(dev).queue == old(dev).queue,
        final(dev).workgroup_size == old(dev).workgroup_size,
        r.wf(),
        buffer_contents(&*r.storage_buffer) == host.logical(),
        r.len as int == host.logical_count(),
        r.dim@ == host.dim@,
        r.st() == default_strides_of(r.sh()),
        r.ptr as int == old(dev).arena.next_start(4),
        final(dev).arena.regions@ == old(dev).arena.regions@.push(
            ArenaRegion {
                start: r.ptr,
                end: (r.ptr + 4 * r.len) as usize,
                buffer: r.storage_buffer,
            },
        ),
        r.region_backs(final(dev).arena.regions@.last()),
        r.registered(final(dev).arena),
{
    let words = host.logical_elements();
    proof {
        lemma_count_pos(host.sh());
    }
    let (buffer, ptr) = dev.allocate_storage_buffer(&words);
    let dim = clone_usizes(&host.dim);
    let strides = default_strides(&dim);
    let r = WgpuArray { storage_buffer: buffer, ptr, len: words.len(), dim, strides };
    proof {
        crate::indexing::lemma_default_strides_bounds(r.sh());
        assert forall|id: int| 0 <= id < count_of(r.sh())
            implies 0 <= 0 + #[trigger] strided_offset(r.sh(), r.st(), id) < r.len as int by {
            crate::indexing::lemma_default_strides_identity(r.sh(), id);
        }
        let regs = dev.arena.regions@;
        assert(regs[regs.len() - 1] == regs.last());
        assert(r.region_backs(regs.last()));
    }
    r
}

/// Copy a shape vector.
pub fn clone_usizes(v: &Vec<usize>) -> (r: Vec<usize>)
    ensures
        r@ == v@,
{
    let mut out: Vec<usize> = Vec::new();
    let mut i: usize = 0;
    let n = v.len();
    while i < n
        invariant
            i <= n,
            n == v@.len(),
            out@ == v@.take(i as int),
        decreases n - i,
    {
        out.push(v[i]);
        proof {
            assert(out@ =~= v@.take(i + 1));
        }
        i = i + 1;
    }
    proof {
        assert(v@.take(n as int) =~= v@);
    }
    out
}

/// Copy a stride vector.
pub fn clone_isizes(v: &Vec<isize>) -> (r: Vec<isize>)
    ensures
        r@ == v@,
{
    let mut out: Vec<isize> = Vec::new();
    let mut i: usize = 0;
    let n = v.len();
    while i < n
        invariant
            i <= n,
            n == v@.len(),
            out@ == v@.take(i as int),
        decreases n - i,
    {
        out.push(v[i]);
        proof {
            assert(out@ =~= v@.take(i + 1));
        }
        i = i + 1;
    }
    proof {
        assert(v@.take(n as int) =~= v@);
    }
    out
}

} // verus!
