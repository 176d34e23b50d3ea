//! The device context: an open connection to a GPU compute device, its
//! command queue, and the trusted boundary to the `wgpu` crate's buffer
//! primitives.
//!
//! A device buffer is opaque: nothing on the host can look inside it.  Its
//! contents are therefore modelled by the uninterpreted name
//! [`buffer_contents`], the sequence of 32-bit words it holds, and
//! [`buffer_len`], its capacity in words.  Buffers follow a write-once
//! discipline: an uploaded buffer is never written again, and a dispatch
//! result buffer is written only by the one compute pass that produces it,
//! before any readback of it; so the words a buffer holds when the library
//! hands it out never change, and the two names are functions of the handle.
//! The dispatcher secures the discipline by compiling only its own kernel
//! templates, in which the one writable binding is the fresh result buffer.
//! Usage flags, also fixed at creation, are modelled the same way: the names
//! [`storage_usable`] and [`map_readable`] stand for the two usage sets the
//! creation wrappers request, and every wrapper whose call the device would
//! reject without those flags requires them.

use vstd::prelude::*;
use crate::arena::BufferArena;
use crate::arena::ArenaRegion;
use crate::bytes::bytes_of_words;
use std::sync::Arc;
use wgpu::util::DeviceExt;

verus! {

#[verifier::external_type_specification]
#[verifier::external_body]
pub struct ExDevice(wgpu::Device);

#[verifier::external_type_specification]
#[verifier::external_body]
pub struct ExAdapter(wgpu::Adapter);

#[verifier::external_type_specification]
#[verifier::external_body]
pub struct ExQueue(wgpu::Queue);

#[verifier::external_type_specification]
#[verifier::external_body]
pub struct ExBuffer(wgpu::Buffer);

#[verifier::external_type_specification]
#[verifier::external_body]
pub struct ExShaderModule(wgpu::ShaderModule);

#[verifier::external_type_specification]
#[verifier::external_body]
pub struct ExComputePipeline(wgpu::ComputePipeline);

#[verifier::external_type_specification]
#[verifier::external_body]
pub struct ExBindGroup(wgpu::BindGroup);

/// The 32-bit words a device buffer holds.  The name is given meaning only
/// through the contracts of the trusted wrappers below.
pub uninterp spec fn buffer_contents(b: &wgpu::Buffer) -> Seq<u32>;

/// A device buffer's capacity in 32-bit words.
pub uninterp spec fn buffer_len(b: &wgpu::Buffer) -> nat;

/// Whether a buffer was created with the storage-usage set this library gives
/// its storage buffers: `STORAGE | COPY_DST | COPY_SRC`.  Usage flags are
/// fixed at creation; a buffer without them may not be bound as storage or
/// used as a copy source, and trying is a device validation error.
pub uninterp spec fn storage_usable(b: &wgpu::Buffer) -> bool;

/// Whether a buffer was created with the staging-usage set this library gives
/// its staging buffers: `MAP_READ | COPY_DST`.  A buffer without them may not
/// be a copy destination or be mapped for reading, and trying is a device
/// validation error.
pub uninterp spec fn map_readable(b: &wgpu::Buffer) -> bool;

/// The default device limit on one buffer's byte size
/// (`wgpu::Limits::default().max_buffer_size`); a larger creation request is
/// a validation error.
pub open spec fn max_buffer_bytes() -> int {
    0x4000_0000
}

/// The default device limit on one storage binding's byte size
/// (`wgpu::Limits::default().max_storage_buffer_binding_size`); binding a
/// larger buffer is a validation error.
pub open spec fn max_binding_bytes() -> int {
    0x0800_0000
}

/// The default device limit on workgroups per dispatch dimension
/// (`wgpu::Limits::default().max_compute_workgroups_per_dimension`); a wider
/// dispatch is a validation error.
pub open spec fn max_dispatch_per_dimension() -> int {
    65535
}

/// Relies on `alloc::sync::Arc::clone`: the clone is a handle to the same
/// shared value.
#[verifier::external_body]
pub(crate) fn clone_buffer_handle(a: &std::sync::Arc<wgpu::Buffer>) -> (r: std::sync::Arc<
    wgpu::Buffer,
>)
    ensures
        r == *a,
{
    a.clone()
}

/// The device context.  It owns the execution device, the adapter it was
/// opened on, the command-submission queue, the dispatch tuning constant, and
/// the arena that hands out synthetic addresses for the buffers it allocates.
pub struct WgpuDevice {
    pub device: wgpu::Device,
    pub adapter: wgpu::Adapter,
    pub queue: wgpu::Queue,
    pub workgroup_size: u32,
    pub arena: BufferArena<Arc<wgpu::Buffer>>,
}

impl WgpuDevice {
    /// A device context over a freshly opened device, its adapter and queue,
    /// with the default dispatch tuning and an empty arena.
    pub fn from_parts(device: wgpu::Device, adapter: wgpu::Adapter, queue: wgpu::Queue) -> (r:
        WgpuDevice)
        ensures
            r.device == device,
            r.adapter == adapter,
            r.queue == queue,
            r.workgroup_size == 8,
            r.arena.wf(),
            r.arena.regions@.len() == 0,
    {
        WgpuDevice { device, adapter, queue, workgroup_size: 8, arena: BufferArena::new() }
    }

    /// Relies on `wgpu::util::DeviceExt::create_buffer_init`: the new buffer
    /// is initialized with exactly the bytes handed in, here the given words,
    /// and is usable as shader storage, copy source and copy destination.
    /// Requests over the device's default size limit are validation errors,
    /// so they are excluded.
    #[verifier::external_body]
    pub fn create_storage_buffer(&self, words: &Vec<u32>) -> (b: wgpu::Buffer)
        requires
            4 * words@.len() <= max_buffer_bytes(),
        ensures
            buffer_contents(&b) == words@,
            buffer_len(&b) == words@.len(),
            storage_usable(&b),
    {
        self.device.create_buffer_init(&wgpu::util::BufferInitDescriptor {
            label: Some("Storage Buffer"),
            contents: bytemuck::cast_slice(words.as_slice()),
            usage: wgpu::BufferUsages::STORAGE | wgpu::BufferUsages::COPY_DST
                | wgpu::BufferUsages::COPY_SRC,
        })
    }

    /// Relies on `wgpu::Device::create_buffer`: the new buffer has exactly
    /// the requested byte size; its contents start out unspecified.  Requests
    /// over the device's default size limit are validation errors, so they
    /// are excluded.
    #[verifier::external_body]
    pub fn create_storage_buffer_sized(&self, size: u64) -> (b: wgpu::Buffer)
        requires
            size % 4 == 0,
            size as int <= max_buffer_bytes(),
        ensures
            buffer_len(&b) == size as nat / 4,
            storage_usable(&b),
    {
        self.device.create_buffer(&wgpu::BufferDescriptor {
            label: Some("Storage Buffer"),
            size,
            usage: wgpu::BufferUsages::STORAGE | wgpu::BufferUsages::COPY_DST
                | wgpu::BufferUsages::COPY_SRC,
            mapped_at_creation: false,
        })
    }

    /// Relies on `wgpu::Device::create_buffer`: the new host-readable staging
    /// buffer has exactly the requested byte size.  Requests over the
    /// device's default size limit are validation errors, so they are
    /// excluded.
    #[verifier::external_body]
    pub fn create_staging_buffer(&self, size: u64) -> (b: wgpu::Buffer)
        requires
            size % 4 == 0,
            size as int <= max_buffer_bytes(),
        ensures
            buffer_len(&b) == size as nat / 4,
            map_readable(&b),
    {
        self.device.create_buffer(&wgpu::BufferDescriptor {
            label: None,
            size,
            usage: wgpu::BufferUsages::MAP_READ | wgpu::BufferUsages::COPY_DST,
            mapped_at_creation: false,
        })
    }

    /// Create a storage buffer holding the given words, register it in the
    /// arena under a fresh synthetic address range, and return the shared
    /// handle together with its synthetic base pointer.
    pub fn allocate_storage_buffer(&mut self, words: &Vec<u32>) -> (r: (Arc<wgpu::Buffer>, usize))
        requires
            old(self).arena.wf(),
            old(self).arena.can_allocate(4 * words@.len() as usize, 4),
            4 * words@.len() <= max_buffer_bytes(),
        ensures
            final(self).arena.wf(),
            final(self).device == old(self).device,
            final(self).adapter == old(self).adapter,
            final(self).queue == old(self).queue,
            final(self).workgroup_size == old(self).workgroup_size,
            buffer_contents(&*r.0) == words@,
            buffer_len(&*r.0) == words@.len(),
            storage_usable(&*r.0),
            r.1 as int == old(self).arena.next_start(4),
            final(self).arena.regions@ == old(self).arena.regions@.push(
                ArenaRegion {
                    start: r.1,
                    end: (r.1 + 4 * words@.len()) as usize,
                    buffer: r.0,
                },
            ),
    {
        let buffer = self.create_storage_buffer(words);
        let shared = Arc::new(buffer);
        let handle = clone_buffer_handle(&shared);
        let ptr = self.arena.allocate(shared, 4 * words.len(), 4);
        (handle, ptr)
    }

    /// Create an uninitialized storage buffer of `words` 32-bit words,
    /// register it in the arena, and return the shared handle together with
    /// its synthetic base pointer.
    pub fn allocate_storage_buffer_sized(&mut self, words: usize) -> (r: (Arc<wgpu::Buffer>, usize))
        requires
            old(self).arena.wf(),
            old(self).arena.can_allocate(4 * words, 4),
            4 * words <= max_buffer_bytes(),
        ensures
            final(self).arena.wf(),
            final(self).device == old(self).device,
            final(self).adapter == old(self).adapter,
            final(self).queue == old(self).queue,
            final(self).workgroup_size == old(self).workgroup_size,
            buffer_len(&*r.0) == words,
            storage_usable(&*r.0),
            r.1 as int == old(self).arena.next_start(4),
            final(self).arena.regions@ == old(self).arena.regions@.push(
                ArenaRegion {
                    start: r.1,
                    end: (r.1 + 4 * words) as usize,
                    buffer: r.0,
                },
            ),
    {
        let buffer = self.create_storage_buffer_sized((words as u64) * 4);
        let shared = Arc::new(buffer);
        let handle = clone_buffer_handle(&shared);
        let ptr = self.arena.allocate(shared, 4 * words, 4);
        (handle, ptr)
    }

    /// The shared handle of the buffer whose arena region contains `ptr`, or
    /// `None` when `ptr` lies outside every registered region.
    pub fn ptr_to_buffer(&self, ptr: usize) -> (r: Option<Arc<wgpu::Buffer>>)
        requires
            self.arena.wf(),
        ensures
            r is Some <==> self.arena.resolves(ptr),
            forall|i: int|
                0 <= i < self.arena.regions@.len() && crate::arena::region_contains(
                    #[trigger] self.arena.regions@[i],
                    ptr,
                ) ==> r == Some(self.arena.regions@[i].buffer),
    {
        match self.arena.resolve_buffer(ptr) {
            Some(b) => Some(clone_buffer_handle(b)),
            None => None,
        }
    }

    /// The element offset of `ptr` inside its owning buffer, in 32-bit words,
    /// or `None` when `ptr` lies outside every registered region.
    pub fn ptr_to_offset(&self, ptr: usize) -> (r: Option<usize>)
        requires
            self.arena.wf(),
        ensures
            r is Some <==> self.arena.resolves(ptr),
            forall|i: int|
                0 <= i < self.arena.regions@.len() && crate::arena::region_contains(
                    #[trigger] self.arena.regions@[i],
                    ptr,
                ) ==> r == Some((((ptr - self.arena.regions@[i].start) as int / 4)) as usize),
    {
        self.arena.resolve_offset(ptr, 4)
    }
}

/// Relies on `wgpu::Device::create_shader_module`: compiles WGSL shader
/// source into a module.  Invalid source is a validation error (a panic under
/// wgpu's default error handler), so only the library's own rendered kernels
/// are admitted; tests validate every one of them through wgpu's shader front
/// end.
#[verifier::external_body]
pub(crate) fn create_shader_module(device: &wgpu::Device, source: &str) -> (r: wgpu::ShaderModule)
    requires
        crate::dispatch::is_library_kernel_source(source@),
{
    device.create_shader_module(wgpu::ShaderModuleDescriptor {
        label: None,
        source: wgpu::ShaderSource::Wgsl(std::borrow::Cow::Borrowed(source)),
    })
}

/// Relies on `wgpu::Device::create_compute_pipeline`: builds a compute
/// pipeline around the module's `main` entry point.  The modules handed in
/// come from the library's own kernel templates, which define `main`.
#[verifier::external_body]
pub(crate) fn create_compute_pipeline(
    device: &wgpu::Device,
    module: &wgpu::ShaderModule,
) -> wgpu::ComputePipeline {
    device.create_compute_pipeline(&wgpu::ComputePipelineDescriptor {
        label: None,
        layout: None,
        module,
        entry_point: "main",
    })
}

/// Relies on `wgpu::ComputePipeline::get_bind_group_layout`,
/// `wgpu::Buffer::as_entire_binding` and `wgpu::Device::create_bind_group`:
/// wires the given buffers, in order, to bindings `0..n` of the pipeline's
/// first bind group.  Binding a buffer without storage usage, or one over the
/// device's default storage-binding size limit, is a validation error, so
/// both are excluded; the dispatcher passes exactly the bindings the
/// library's own kernel template behind the pipeline declares.
#[verifier::external_body]
pub(crate) fn create_bind_group(
    device: &wgpu::Device,
    pipeline: &wgpu::ComputePipeline,
    buffers: Vec<&wgpu::Buffer>,
) -> (r: wgpu::BindGroup)
    requires
        forall|i: int| 0 <= i < buffers@.len() ==> storage_usable(#[trigger] buffers@[i]),
        forall|i: int|
            0 <= i < buffers@.len() ==> 4 * buffer_len(#[trigger] buffers@[i])
                <= max_binding_bytes(),
{
    let layout = pipeline.get_bind_group_layout(0);
    let entries: Vec<wgpu::BindGroupEntry> = buffers
        .iter()
        .enumerate()
        .map(|(i, b)| wgpu::BindGroupEntry { binding: i as u32, resource: b.as_entire_binding() })
        .collect();
    device.create_bind_group(&wgpu::BindGroupDescriptor { label: None, layout: &layout, entries: &entries })
}

/// Relies on `wgpu::CommandEncoder::begin_compute_pass`,
/// `wgpu::ComputePass::dispatch_workgroups` and `wgpu::Queue::submit`:
/// records one compute pass over the pipeline and bind group, dispatched
/// once per output element, and submits it.  A dispatch wider than the
/// device's default per-dimension limit is a validation error, so it is
/// excluded.  The pipeline comes from one of the library's own kernel
/// templates, whose only `read_write` binding is the fresh result buffer, so
/// the pass writes nothing else; nothing is assumed about what it wrote.
#[verifier::external_body]
pub(crate) fn run_compute(
    device: &wgpu::Device,
    queue: &wgpu::Queue,
    pipeline: &wgpu::ComputePipeline,
    bind_group: &wgpu::BindGroup,
    n: u32,
)
    requires
        n as int <= max_dispatch_per_dimension(),
{
    let mut encoder = device.create_command_encoder(&wgpu::CommandEncoderDescriptor {
        label: None,
    });
    {
        let mut cpass = encoder.begin_compute_pass(&wgpu::ComputePassDescriptor { label: None });
        cpass.set_pipeline(pipeline);
        cpass.set_bind_group(0, bind_group, &[]);
        cpass.dispatch_workgroups(n, 1, 1);
    }
    queue.submit(Some(encoder.finish()));
}

/// Relies on `wgpu::CommandEncoder::copy_buffer_to_buffer` and
/// `wgpu::Queue::submit`: after the submitted copy, the staging buffer holds
/// the source buffer's bytes.  Copying from a buffer without copy-source
/// usage, or into one without copy-destination usage, is a validation error,
/// so the source must be one of the library's storage buffers and the
/// destination one of its staging buffers.  The staging buffer is taken by
/// value and returned because the copy writes it: the returned handle's
/// contents never change again.
#[verifier::external_body]
pub(crate) fn copy_to_staging(
    device: &wgpu::Device,
    queue: &wgpu::Queue,
    src: &wgpu::Buffer,
    staging: wgpu::Buffer,
    size: u64,
) -> (r: wgpu::Buffer)
    requires
        size as nat == 4 * buffer_len(src),
        buffer_len(&staging) == buffer_len(src),
        storage_usable(src),
        map_readable(&staging),
    ensures
        buffer_len(&r) == buffer_len(src),
        buffer_contents(&r) == buffer_contents(src),
        map_readable(&r),
{
    let mut encoder = device.create_command_encoder(&wgpu::CommandEncoderDescriptor {
        label: None,
    });
    encoder.copy_buffer_to_buffer(src, 0, &staging, 0, size);
    queue.submit(Some(encoder.finish()));
    staging
}

/// Relies on `wgpu::BufferSlice::map_async` with a `futures_intrusive`
/// oneshot channel, `wgpu::Device::poll` in blocking mode, `futures`'s
/// executor, and `wgpu::BufferSlice::get_mapped_range`: on success the mapped
/// range holds the staging buffer's raw bytes, 32-bit words stored
/// little-endian as WebGPU defines; `None` when the device reports a mapping
/// error.  Mapping a buffer without map-read usage is a validation error, so
/// only the library's staging buffers are admitted.  The byte-order clause
/// additionally assumes a little-endian host: the upload path writes
/// host-order words through `bytemuck`, and every platform wgpu runs on is
/// little-endian.
#[verifier::external_body]
pub(crate) fn map_and_read(device: &wgpu::Device, staging: wgpu::Buffer) -> (r: Option<Vec<u8>>)
    requires
        map_readable(&staging),
    ensures
        r matches Some(b) ==> b@ == bytes_of_words(buffer_contents(&staging)),
        r matches Some(b) ==> b@.len() == 4 * buffer_len(&staging),
{
    let slice = staging.slice(..);
    let (sender, receiver) = futures_intrusive::channel::shared::oneshot_channel();
    slice.map_async(wgpu::MapMode::Read, move |v| {
        let _ = sender.send(v);
    });
    device.poll(wgpu::Maintain::Wait);
    if let Some(Ok(())) = futures::executor::block_on(receiver.receive()) {
        let data = slice.get_mapped_range();
        let out = data.to_vec();
        drop(data);
        staging.unmap();
        Some(out)
    } else {
        None
    }
}

} // verus!
