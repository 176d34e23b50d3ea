//! The compute dispatcher: run one elementwise operation end to end.
//!
//! A dispatch resolves its operands' synthetic pointers to element offsets
//! through the arena, renders kernel source from the template engine, uploads
//! the broadcast output shape and each operand's strides as auxiliary
//! buffers, allocates and registers a dense result buffer, wires everything
//! into a bind group, and submits one compute invocation per output element.
//! Operands must already be broadcast to a common shape: each axis of an
//! operand view may use a zero stride (a broadcast axis) or a negative stride
//! (a reversed axis), and the kernel recovers each operand's element from the
//! output index by the decomposition that `crate::indexing` proves correct.
//! The result is always dense and row-major, whatever the operand strides.
//!
//! The kernel source is always one of the two templates below, owned by this
//! module and rendered by the verified template engine; callers choose only
//! the operator.  In both templates the one `read_write` binding is the fresh
//! result buffer, so a dispatch never writes an operand — the write-once
//! discipline the trusted buffer model in `crate::device` rests on.

use vstd::prelude::*;
use vstd::pervasive::unreached;
use crate::arena::{ArenaRegion, region_contains};
use crate::array::WgpuArray;
use crate::array::clone_usizes;
use crate::device::{
    WgpuDevice, buffer_len, create_bind_group, create_compute_pipeline, create_shader_module,
    max_binding_bytes, max_dispatch_per_dimension, run_compute,
};
use crate::indexing::{
    count_of, default_strides_of, elem_count, default_strides, shape_to_u32, strides_to_i32,
    lemma_count_pos, lemma_default_strides_bounds, lemma_default_strides_identity,
    strided_offset, view_ok,
};
use crate::kernel::{render_elementwise, render_scalar};

verus! {

/// The WGSL source template of a binary elementwise kernel, as the template
/// engine's contracts speak of it.  The engine substitutes `$op` (the
/// operator symbol), `$ndim` (rank minus one) and the two `$..._offset`
/// markers.  Binding order: output shape, left strides, left operand, right
/// strides, right operand, result; only the result is `read_write`.
pub open spec fn elementwise_template_spec() -> Seq<char> {
    "
struct U32s { data: array<u32>, }
struct I32s { data: array<i32>, }
struct F32s { data: array<f32>, }

@group(0) @binding(0) var<storage, read> shape: U32s;
@group(0) @binding(1) var<storage, read> lhs_strides: I32s;
@group(0) @binding(2) var<storage, read> lhs: F32s;
@group(0) @binding(3) var<storage, read> rhs_strides: I32s;
@group(0) @binding(4) var<storage, read> rhs: F32s;
@group(0) @binding(5) var<storage, read_write> result: F32s;

@compute @workgroup_size(1)
fn main(@builtin(global_invocation_id) global_id: vec3<u32>) {
    let id = global_id.x;
    var id_ = i32(id);
    var lhs_id = 0;
    var rhs_id = 0;
    for (var i = $ndim; i >= 0; i = i - 1) {
        let s = i32(shape.data[i]);
        let idx = id_ % s;
        id_ = id_ / s;
        lhs_id = lhs_id + idx * lhs_strides.data[i];
        rhs_id = rhs_id + idx * rhs_strides.data[i];
    }
    result.data[id] = lhs.data[$lhs_offset + lhs_id] $op rhs.data[$rhs_offset + rhs_id];
}
"@
}

/// The WGSL source template of a binary elementwise kernel, as text.
pub fn elementwise_template() -> (r: &'static str)
    ensures
        r@ == elementwise_template_spec(),
{
    "
struct U32s { data: array<u32>, }
struct I32s { data: array<i32>, }
struct F32s { data: array<f32>, }

@group(0) @binding(0) var<storage, read> shape: U32s;
@group(0) @binding(1) var<storage, read> lhs_strides: I32s;
@group(0) @binding(2) var<storage, read> lhs: F32s;
@group(0) @binding(3) var<storage, read> rhs_strides: I32s;
@group(0) @binding(4) var<storage, read> rhs: F32s;
@group(0) @binding(5) var<storage, read_write> result: F32s;

@compute @workgroup_size(1)
fn main(@builtin(global_invocation_id) global_id: vec3<u32>) {
    let id = global_id.x;
    var id_ = i32(id);
    var lhs_id = 0;
    var rhs_id = 0;
    for (var i = $ndim; i >= 0; i = i - 1) {
        let s = i32(shape.data[i]);
        let idx = id_ % s;
        id_ = id_ / s;
        lhs_id = lhs_id + idx * lhs_strides.data[i];
        rhs_id = rhs_id + idx * rhs_strides.data[i];
    }
    result.data[id] = lhs.data[$lhs_offset + lhs_id] $op rhs.data[$rhs_offset + rhs_id];
}
"
}

/// The WGSL source template of a binary scalar kernel, as the template
/// engine's contracts speak of it.  The engine substitutes `$operation` (the
/// whole result statement, which itself holds `$op` and `$lhs_offset`), then
/// the remaining markers.  Binding order: output shape, left strides, left
/// operand, scalar, result; only the result is `read_write`.
pub open spec fn scalar_template_spec() -> Seq<char> {
    "
struct U32s { data: array<u32>, }
struct I32s { data: array<i32>, }
struct F32s { data: array<f32>, }

@group(0) @binding(0) var<storage, read> shape: U32s;
@group(0) @binding(1) var<storage, read> lhs_strides: I32s;
@group(0) @binding(2) var<storage, read> lhs: F32s;
@group(0) @binding(3) var<storage, read> scalar_buf: F32s;
@group(0) @binding(4) var<storage, read_write> result: F32s;

@compute @workgroup_size(1)
fn main(@builtin(global_invocation_id) global_id: vec3<u32>) {
    let id = global_id.x;
    var id_ = i32(id);
    var lhs_id = 0;
    for (var i = $ndim; i >= 0; i = i - 1) {
        let s = i32(shape.data[i]);
        let idx = id_ % s;
        id_ = id_ / s;
        lhs_id = lhs_id + idx * lhs_strides.data[i];
    }
    let scalar = scalar_buf.data[0];
    $operation
}
"@
}

/// The WGSL source template of a binary scalar kernel, as text.
pub fn scalar_template() -> (r: &'static str)
    ensures
        r@ == scalar_template_spec(),
{
    "
struct U32s { data: array<u32>, }
struct I32s { data: array<i32>, }
struct F32s { data: array<f32>, }

@group(0) @binding(0) var<storage, read> shape: U32s;
@group(0) @binding(1) var<storage, read> lhs_strides: I32s;
@group(0) @binding(2) var<storage, read> lhs: F32s;
@group(0) @binding(3) var<storage, read> scalar_buf: F32s;
@group(0) @binding(4) var<storage, read_write> result: F32s;

@compute @workgroup_size(1)
fn main(@builtin(global_invocation_id) global_id: vec3<u32>) {
    let id = global_id.x;
    var id_ = i32(id);
    var lhs_id = 0;
    for (var i = $ndim; i >= 0; i = i - 1) {
        let s = i32(shape.data[i]);
        let idx = id_ % s;
        id_ = id_ / s;
        lhs_id = lhs_id + idx * lhs_strides.data[i];
    }
    let scalar = scalar_buf.data[0];
    $operation
}
"
}

/// The result statement of an infix scalar kernel.
pub open spec fn scalar_infix_operation_spec() -> Seq<char> {
    "result.data[id] = lhs.data[$lhs_offset + lhs_id] $op scalar;"@
}

/// The result statement of a named-function scalar kernel.
pub open spec fn scalar_function_operation_spec() -> Seq<char> {
    "result.data[id] = $op(lhs.data[$lhs_offset + lhs_id], scalar);"@
}

/// The result statement of an infix scalar kernel.
fn scalar_infix_operation() -> (r: &'static str)
    ensures
        r@ == scalar_infix_operation_spec(),
{
    "result.data[id] = lhs.data[$lhs_offset + lhs_id] $op scalar;"
}

/// The result statement of a named-function scalar kernel.
fn scalar_function_operation() -> (r: &'static str)
    ensures
        r@ == scalar_function_operation_spec(),
{
    "result.data[id] = $op(lhs.data[$lhs_offset + lhs_id], scalar);"
}

/// The elementwise operator a dispatch applies, written into the kernel
/// source as its WGSL symbol.
pub enum BinaryOperator {
    Add,
    Sub,
    Mul,
    Div,
}

impl BinaryOperator {
    /// The operator's WGSL symbol.
    pub open spec fn symbol_spec(self) -> Seq<char> {
        match self {
            BinaryOperator::Add => seq!['+'],
            BinaryOperator::Sub => seq!['-'],
            BinaryOperator::Mul => seq!['*'],
            BinaryOperator::Div => seq!['/'],
        }
    }

    /// The operator's WGSL symbol as text.
    pub fn symbol(&self) -> (r: &'static str)
        ensures
            r@ == self.symbol_spec(),
    {
        match self {
            BinaryOperator::Add => {
                proof { reveal_strlit("+"); }
                let r = "+";
                proof { assert(r@ =~= seq!['+']); }
                r
            },
            BinaryOperator::Sub => {
                proof { reveal_strlit("-"); }
                let r = "-";
                proof { assert(r@ =~= seq!['-']); }
                r
            },
            BinaryOperator::Mul => {
                proof { reveal_strlit("*"); }
                let r = "*";
                proof { assert(r@ =~= seq!['*']); }
                r
            },
            BinaryOperator::Div => {
                proof { reveal_strlit("/"); }
                let r = "/";
                proof { assert(r@ =~= seq!['/']); }
                r
            },
        }
    }
}

/// The scalar operator a dispatch applies: an infix symbol, or the named
/// power function.
pub enum ScalarOperator {
    Add,
    Sub,
    Mul,
    Div,
    Pow,
}

impl ScalarOperator {
    /// The operator's WGSL symbol or function name.
    pub open spec fn symbol_spec(self) -> Seq<char> {
        match self {
            ScalarOperator::Add => seq!['+'],
            ScalarOperator::Sub => seq!['-'],
            ScalarOperator::Mul => seq!['*'],
            ScalarOperator::Div => seq!['/'],
            ScalarOperator::Pow => seq!['p', 'o', 'w'],
        }
    }

    /// The operator's WGSL symbol or function name as text.
    pub fn symbol(&self) -> (r: &'static str)
        ensures
            r@ == self.symbol_spec(),
    {
        match self {
            ScalarOperator::Add => {
                proof { reveal_strlit("+"); }
                let r = "+";
                proof { assert(r@ =~= seq!['+']); }
                r
            },
            ScalarOperator::Sub => {
                proof { reveal_strlit("-"); }
                let r = "-";
                proof { assert(r@ =~= seq!['-']); }
                r
            },
            ScalarOperator::Mul => {
                proof { reveal_strlit("*"); }
                let r = "*";
                proof { assert(r@ =~= seq!['*']); }
                r
            },
            ScalarOperator::Div => {
                proof { reveal_strlit("/"); }
                let r = "/";
                proof { assert(r@ =~= seq!['/']); }
                r
            },
            ScalarOperator::Pow => {
                proof { reveal_strlit("pow"); }
                let r = "pow";
                proof { assert(r@ =~= seq!['p', 'o', 'w']); }
                r
            },
        }
    }

    /// The kernel's result statement for this operator: a named-function call
    /// for the power function, an infix expression otherwise.
    pub open spec fn operation_spec(self) -> Seq<char> {
        if self is Pow {
            scalar_function_operation_spec()
        } else {
            scalar_infix_operation_spec()
        }
    }

    /// The kernel's result statement for this operator, as text.
    pub fn operation(&self) -> (r: &'static str)
        ensures
            r@ == self.operation_spec(),
    {
        match self {
            ScalarOperator::Pow => scalar_function_operation(),
            _ => scalar_infix_operation(),
        }
    }
}

/// The full source of one elementwise kernel: the elementwise template with
/// the operator symbol, the iteration bound and both element offsets
/// substituted, exactly as `crate::kernel::render_elementwise` renders it.
pub open spec fn rendered_elementwise_spec(
    op: BinaryOperator,
    rank: int,
    lhs_offset: int,
    rhs_offset: int,
) -> Seq<char> {
    crate::kernel::replace_spec(
        crate::kernel::replace_spec(
            crate::kernel::replace_spec(
                crate::kernel::replace_spec(
                    elementwise_template_spec(),
                    "$op"@,
                    op.symbol_spec(),
                ),
                "$ndim"@,
                crate::kernel::decimal_spec(rank - 1),
            ),
            "$lhs_offset"@,
            crate::kernel::decimal_spec(lhs_offset),
        ),
        "$rhs_offset"@,
        crate::kernel::decimal_spec(rhs_offset),
    )
}

/// The full source of one scalar kernel: the scalar template with the
/// operation statement, the operator, the iteration bound and the left
/// element offset substituted, exactly as `crate::kernel::render_scalar`
/// renders it.
pub open spec fn rendered_scalar_spec(op: ScalarOperator, rank: int, lhs_offset: int) -> Seq<
    char,
> {
    crate::kernel::replace_spec(
        crate::kernel::replace_spec(
            crate::kernel::replace_spec(
                crate::kernel::replace_spec(
                    scalar_template_spec(),
                    "$operation"@,
                    op.operation_spec(),
                ),
                "$op"@,
                op.symbol_spec(),
            ),
            "$ndim"@,
            crate::kernel::decimal_spec(rank - 1),
        ),
        "$lhs_offset"@,
        crate::kernel::decimal_spec(lhs_offset),
    )
}

/// Whether `s` is a kernel this library can produce: one of the two owned
/// templates, rendered for some operator, rank and element offsets.  The
/// shader-module wrapper admits only such sources; they compile, and their
/// one writable binding is the result buffer.
pub open spec fn is_library_kernel_source(s: Seq<char>) -> bool {
    ||| exists|op: BinaryOperator, rank: int, lhs_offset: int, rhs_offset: int|
        1 <= rank && 0 <= lhs_offset && 0 <= rhs_offset && s == #[trigger] rendered_elementwise_spec(
            op,
            rank,
            lhs_offset,
            rhs_offset,
        )
    ||| exists|op: ScalarOperator, rank: int, lhs_offset: int|
        1 <= rank && 0 <= lhs_offset && s == #[trigger] rendered_scalar_spec(
            op,
            rank,
            lhs_offset,
        )
}

/// Resolve the element offset of a registered view's synthetic pointer.
fn resolve_operand_offset(dev: &WgpuDevice, view: &WgpuArray) -> (offset: usize)
    requires
        dev.arena.wf(),
        view.registered(dev.arena),
    ensures
        view_ok(view.len as int, offset as int, view.sh(), view.st()),
{
    let ghost i = choose|i: int|
        0 <= i < dev.arena.regions@.len() && view.region_backs(dev.arena.regions@[i]);
    match dev.ptr_to_offset(view.ptr) {
        Some(offset) => {
            proof {
                assert(region_contains(dev.arena.regions@[i], view.ptr));
            }
            offset
        },
        None => {
            proof {
                assert(region_contains(dev.arena.regions@[i], view.ptr));
                assert(dev.arena.resolves(view.ptr));
            }
            unreached()
        },
    }
}

/// Run one binary elementwise operation: `result[i] = lhs[i] OP rhs[i]` over
/// logical indices, computed on the device.  The operands must already share
/// one broadcast shape; the result is a fresh dense row-major view registered
/// in the arena.
pub fn binary_elementwise(
    dev: &mut WgpuDevice,
    lhs: &WgpuArray,
    rhs: &WgpuArray,
    op: BinaryOperator,
) -> (r: WgpuArray)
    requires
        old(dev).arena.wf(),
        lhs.wf(),
        rhs.wf(),
        lhs.registered(old(dev).arena),
        rhs.registered(old(dev).arena),
        lhs.dim@ == rhs.dim@,
        lhs.dim@.len() >= 1,
        old(dev).arena.can_allocate(4 * lhs.logical_count(), 4),
        lhs.logical_count() <= max_dispatch_per_dimension(),
        4 * lhs.len <= max_binding_bytes(),
        4 * rhs.len <= max_binding_bytes(),
        4 * lhs.dim@.len() <= max_binding_bytes(),
    ensures
        final(dev).arena.wf(),
        final(dev).device == old(dev).device,
        final(dev).adapter == old(dev).adapter,
        final(dev).queue == old(dev).queue,
        final(dev).workgroup_size == old(dev).workgroup_size,
        r.wf(),
        r.dim@ == lhs.dim@,
        r.st() == default_strides_of(r.sh()),
        r.len as int == lhs.logical_count(),
        r.ptr as int == old(dev).arena.next_start(4),
        final(dev).arena.regions@ == old(dev).arena.regions@.push(
            ArenaRegion {
                start: r.ptr,
                end: (r.ptr + 4 * r.len) as usize,
                buffer: r.storage_buffer,
            },
        ),
        r.region_backs(final(dev).arena.regions@.last()),
        r.registered(final(dev).arena),
        lhs.registered(final(dev).arena),
        rhs.registered(final(dev).arena),
{
    let ghost li = choose|i: int|
        0 <= i < dev.arena.regions@.len() && lhs.region_backs(dev.arena.regions@[i]);
    let ghost ri = choose|i: int|
        0 <= i < dev.arena.regions@.len() && rhs.region_backs(dev.arena.regions@[i]);

    let lhs_offset = resolve_operand_offset(dev, lhs);
    let rhs_offset = resolve_operand_offset(dev, rhs);

    proof {
        crate::indexing::lemma_protocol_elem_bounds(lhs.dim@, lhs.strides@);
        crate::indexing::lemma_protocol_elem_bounds(rhs.dim@, rhs.strides@);
    }
    let rank = lhs.dim.len();
    let source = render_elementwise(
        elementwise_template(),
        op.symbol(),
        rank,
        lhs_offset,
        rhs_offset,
    );
    proof {
        assert(source@ == rendered_elementwise_spec(
            op,
            rank as int,
            lhs_offset as int,
            rhs_offset as int,
        ));
        assert(is_library_kernel_source(source@));
    }
    let module = create_shader_module(&dev.device, source.as_str());
    let pipeline = create_compute_pipeline(&dev.device, &module);

    let dim_words = shape_to_u32(&lhs.dim);
    let dim_buffer = dev.create_storage_buffer(&dim_words);
    let lhs_strides_words = crate::bytes::i32s_to_words(&strides_to_i32(&lhs.strides));
    let lhs_strides_buffer = dev.create_storage_buffer(&lhs_strides_words);
    let rhs_strides_words = crate::bytes::i32s_to_words(&strides_to_i32(&rhs.strides));
    let rhs_strides_buffer = dev.create_storage_buffer(&rhs_strides_words);

    let n = elem_count(&lhs.dim);
    let (result_buffer, result_ptr) = dev.allocate_storage_buffer_sized(n);

    let mut buffers: Vec<&wgpu::Buffer> = Vec::new();
    buffers.push(&dim_buffer);
    buffers.push(&lhs_strides_buffer);
    buffers.push(&*lhs.storage_buffer);
    buffers.push(&rhs_strides_buffer);
    buffers.push(&*rhs.storage_buffer);
    buffers.push(&*result_buffer);
    proof {
        assert forall|i: int| 0 <= i < buffers@.len()
            implies 4 * buffer_len(#[trigger] buffers@[i]) <= max_binding_bytes() by {
            assert(buffers@[0] == &dim_buffer);
            assert(buffers@[1] == &lhs_strides_buffer);
            assert(buffers@[2] == &*lhs.storage_buffer);
            assert(buffers@[3] == &rhs_strides_buffer);
            assert(buffers@[4] == &*rhs.storage_buffer);
            assert(buffers@[5] == &*result_buffer);
        }
    }
    let bind_group = create_bind_group(&dev.device, &pipeline, buffers);
    run_compute(&dev.device, &dev.queue, &pipeline, &bind_group, n as u32);

    let dim = clone_usizes(&lhs.dim);
    let strides = default_strides(&dim);
    let r = WgpuArray { storage_buffer: result_buffer, ptr: result_ptr, len: n, dim, strides };
    proof {
        lemma_count_pos(r.sh());
        lemma_default_strides_bounds(r.sh());
        assert forall|id: int| 0 <= id < count_of(r.sh())
            implies 0 <= 0 + #[trigger] strided_offset(r.sh(), r.st(), id) < r.len as int by {
            lemma_default_strides_identity(r.sh(), id);
        }
        let regs = dev.arena.regions@;
        assert(regs[regs.len() - 1] == regs.last());
        assert(r.region_backs(regs.last()));
        assert(regs[li] == old(dev).arena.regions@[li]);
        assert(lhs.region_backs(regs[li]));
        assert(regs[ri] == old(dev).arena.regions@[ri]);
        assert(rhs.region_backs(regs[ri]));
    }
    r
}

/// Run one binary scalar operation: `result[i] = lhs[i] OP scalar` (or the
/// power function of them) over logical indices, computed on the device.
/// `scalar` is the raw 32-bit pattern of the scalar operand.  The result is a
/// fresh dense row-major view registered in the arena.
pub fn binary_scalar(dev: &mut WgpuDevice, lhs: &WgpuArray, scalar: u32, op: ScalarOperator) -> (r:
    WgpuArray)
    requires
        old(dev).arena.wf(),
        lhs.wf(),
        lhs.registered(old(dev).arena),
        lhs.dim@.len() >= 1,
        old(dev).arena.can_allocate(4 * lhs.logical_count(), 4),
        lhs.logical_count() <= max_dispatch_per_dimension(),
        4 * lhs.len <= max_binding_bytes(),
        4 * lhs.dim@.len() <= max_binding_bytes(),
    ensures
        final(dev).arena.wf(),
        final(dev).device == old(dev).device,
        final(dev).adapter == old(dev).adapter,
        final(dev).queue == old(dev).queue,
        final(dev).workgroup_size == old(dev).workgroup_size,
        r.wf(),
        r.dim@ == lhs.dim@,
        r.st() == default_strides_of(r.sh()),
        r.len as int == lhs.logical_count(),
        r.ptr as int == old(dev).arena.next_start(4),
        final(dev).arena.regions@ == old(dev).arena.regions@.push(
            ArenaRegion {
                start: r.ptr,
                end: (r.ptr + 4 * r.len) as usize,
                buffer: r.storage_buffer,
            },
        ),
        r.region_backs(final(dev).arena.regions@.last()),
        r.registered(final(dev).arena),
        lhs.registered(final(dev).arena),
{
    let ghost li = choose|i: int|
        0 <= i < dev.arena.regions@.len() && lhs.region_backs(dev.arena.regions@[i]);

    let lhs_offset = resolve_operand_offset(dev, lhs);

    proof {
        crate::indexing::lemma_protocol_elem_bounds(lhs.dim@, lhs.strides@);
    }
    let rank = lhs.dim.len();
    let source = render_scalar(scalar_template(), op.operation(), op.symbol(), rank, lhs_offset);
    proof {
        assert(source@ == rendered_scalar_spec(op, rank as int, lhs_offset as int));
        assert(is_library_kernel_source(source@));
    }
    let module = create_shader_module(&dev.device, source.as_str());
    let pipeline = create_compute_pipeline(&dev.device, &module);

    let dim_words = shape_to_u32(&lhs.dim);
    let dim_buffer = dev.create_storage_buffer(&dim_words);
    let lhs_strides_words = crate::bytes::i32s_to_words(&strides_to_i32(&lhs.strides));
    let lhs_strides_buffer = dev.create_storage_buffer(&lhs_strides_words);
    let mut scalar_words: Vec<u32> = Vec::new();
    scalar_words.push(scalar);
    let scalar_buffer = dev.create_storage_buffer(&scalar_words);

    let n = elem_count(&lhs.dim);
    let (result_buffer, result_ptr) = dev.allocate_storage_buffer_sized(n);

    let mut buffers: Vec<&wgpu::Buffer> = Vec::new();
    buffers.push(&dim_buffer);
    buffers.push(&lhs_strides_buffer);
    buffers.push(&*lhs.storage_buffer);
    buffers.push(&scalar_buffer);
    buffers.push(&*result_buffer);
    proof {
        assert forall|i: int| 0 <= i < buffers@.len()
            implies 4 * buffer_len(#[trigger] buffers@[i]) <= max_binding_bytes() by {
            assert(buffers@[0] == &dim_buffer);
            assert(buffers@[1] == &lhs_strides_buffer);
            assert(buffers@[2] == &*lhs.storage_buffer);
            assert(buffers@[3] == &scalar_buffer);
            assert(buffers@[4] == &*result_buffer);
        }
    }
    let bind_group = create_bind_group(&dev.device, &pipeline, buffers);
    run_compute(&dev.device, &dev.queue, &pipeline, &bind_group, n as u32);

    let dim = clone_usizes(&lhs.dim);
    let strides = default_strides(&dim);
    let r = WgpuArray { storage_buffer: result_buffer, ptr: result_ptr, len: n, dim, strides };
    proof {
        lemma_count_pos(r.sh());
        lemma_default_strides_bounds(r.sh());
        assert forall|id: int| 0 <= id < count_of(r.sh())
            implies 0 <= 0 + #[trigger] strided_offset(r.sh(), r.st(), id) < r.len as int by {
            lemma_default_strides_identity(r.sh(), id);
        }
        let regs = dev.arena.regions@;
        assert(regs[regs.len() - 1] == regs.last());
        assert(r.region_backs(regs.last()));
        assert(regs[li] == old(dev).arena.regions@[li]);
        assert(lhs.region_backs(regs[li]));
    }
    r
}

} // verus!
