//! The library's laws: properties that tie the components together, stated
//! over the same specification functions the components' contracts use.

use vstd::prelude::*;
use crate::arena::{BufferArena, region_contains};
use crate::array::HostArray;
use crate::indexing::{
    count_of, kernel_offset, nested_elems, lemma_kernel_offset_matches,
    lemma_default_strides_identity, lemma_nested_is_decomposed, lemma_count_pos,
};

verus! {

/// Round trip: for a dense host array, the logical elements that `upload`
/// copies to the device are the array's own data, word for word.  Combined
/// with `upload`'s postcondition (the new buffer holds the logical elements)
/// and `get_data`'s postcondition (the download is the buffer's contents),
/// downloading an uploaded dense array returns it element for element.
pub proof fn lemma_upload_download_roundtrip(a: HostArray)
    requires
        a.wf(),
        a.is_dense(),
    ensures
        a.logical() == a.data@,
{
    lemma_count_pos(a.sh());
    assert forall|id: int| 0 <= id < a.logical_count() implies a.logical()[id] == a.data@[id] by {
        lemma_default_strides_identity(a.sh(), id);
    }
    assert(a.logical() =~= a.data@);
}

/// Elementwise parity: for any elementwise operation and any two
/// broadcast-compatible views brought to one shape, the per-element values a
/// compute kernel produces (it gathers each operand through the
/// innermost-first index decomposition baked into the generated source)
/// equal the operation applied to the operands' logical elements in
/// row-major order, the host reference result.  This holds for negative
/// strides (reversed axes) and zero strides (broadcast axes) alike.
pub proof fn lemma_elementwise_parity(lhs: HostArray, rhs: HostArray, op: spec_fn(u32, u32) -> u32)
    requires
        lhs.wf(),
        rhs.wf(),
        lhs.dim@ == rhs.dim@,
    ensures
        Seq::new(
            count_of(lhs.sh()) as nat,
            |id: int|
                op(
                    lhs.data@[lhs.offset + kernel_offset(lhs.sh(), lhs.st(), id)],
                    rhs.data@[rhs.offset + kernel_offset(rhs.sh(), rhs.st(), id)],
                ),
        ) == Seq::new(
            count_of(lhs.sh()) as nat,
            |id: int| op(lhs.logical()[id], rhs.logical()[id]),
        ),
{
    lemma_count_pos(lhs.sh());
    let n = count_of(lhs.sh()) as nat;
    let device = Seq::new(
        n,
        |id: int|
            op(
                lhs.data@[lhs.offset + kernel_offset(lhs.sh(), lhs.st(), id)],
                rhs.data@[rhs.offset + kernel_offset(rhs.sh(), rhs.st(), id)],
            ),
    );
    let host = Seq::new(n, |id: int| op(lhs.logical()[id], rhs.logical()[id]));
    assert forall|id: int| 0 <= id < n implies device[id] == host[id] by {
        lemma_kernel_offset_matches(lhs.sh(), lhs.st(), id);
        assert(rhs.sh() == lhs.sh());
        lemma_kernel_offset_matches(rhs.sh(), rhs.st(), id);
    }
    assert(device =~= host);
}

/// Scalar parity: a scalar kernel reads its one array operand through the
/// same innermost-first decomposition, so for any operation its per-element
/// values equal the operation applied to the operand's logical elements and
/// the scalar.
pub proof fn lemma_scalar_parity(lhs: HostArray, scalar: u32, op: spec_fn(u32, u32) -> u32)
    requires
        lhs.wf(),
    ensures
        Seq::new(
            count_of(lhs.sh()) as nat,
            |id: int| op(lhs.data@[lhs.offset + kernel_offset(lhs.sh(), lhs.st(), id)], scalar),
        ) == Seq::new(count_of(lhs.sh()) as nat, |id: int| op(lhs.logical()[id], scalar)),
{
    lemma_count_pos(lhs.sh());
    let n = count_of(lhs.sh()) as nat;
    let device = Seq::new(
        n,
        |id: int| op(lhs.data@[lhs.offset + kernel_offset(lhs.sh(), lhs.st(), id)], scalar),
    );
    let host = Seq::new(n, |id: int| op(lhs.logical()[id], scalar));
    assert forall|id: int| 0 <= id < n implies device[id] == host[id] by {
        lemma_kernel_offset_matches(lhs.sh(), lhs.st(), id);
    }
    assert(device =~= host);
}

/// Row-major order: a view's logical elements are exactly what a nested
/// walk of its axes visits, outermost axis slowest, each coordinate step
/// moving by that axis's stride.  The walk is defined by recursion over the
/// axes, independent of the index decomposition the contracts use, so the
/// decomposition arithmetic is pinned to the iteration order it stands for.
pub proof fn lemma_logical_is_nested_iteration(a: HostArray)
    requires
        a.wf(),
    ensures
        a.logical() == nested_elems(a.data@, a.sh(), a.st(), a.offset as int),
{
    lemma_nested_is_decomposed(a.data@, a.sh(), a.st(), a.offset as int);
    assert(a.logical() =~= nested_elems(a.data@, a.sh(), a.st(), a.offset as int));
}

/// Arena non-overlap: in a well-formed arena no synthetic address lies in two
/// registered regions.  (That each region's byte length equals the element
/// count times the element size it was allocated with is
/// `BufferArena::allocate`'s own postcondition: `end == ptr + size_bytes`.)
pub proof fn lemma_arena_no_overlap<B>(arena: BufferArena<B>, i: int, j: int, ptr: usize)
    requires
        arena.wf(),
        0 <= i < arena.regions@.len(),
        0 <= j < arena.regions@.len(),
        i != j,
        region_contains(arena.regions@[i], ptr),
    ensures
        !region_contains(arena.regions@[j], ptr),
{
    if i < j {
        arena.lemma_sorted(i, j);
    } else {
        arena.lemma_sorted(j, i);
    }
}

/// Pointer resolution soundness: a synthetic pointer at the start of a
/// non-empty region, as `allocate` returns it, lies in that region and in
/// no other, so `resolve_buffer` returns that region's buffer and
/// `resolve_offset` returns exactly zero, by their postconditions.
pub proof fn lemma_fresh_pointer_resolves<B>(arena: BufferArena<B>, i: int)
    requires
        arena.wf(),
        0 <= i < arena.regions@.len(),
        arena.regions@[i].start < arena.regions@[i].end,
    ensures
        arena.resolves(arena.regions@[i].start),
        forall|j: int|
            0 <= j < arena.regions@.len() && region_contains(
                #[trigger] arena.regions@[j],
                arena.regions@[i].start,
            ) ==> j == i && arena.regions@[i].start - arena.regions@[j].start == 0,
{
    let ptr = arena.regions@[i].start;
    assert(region_contains(arena.regions@[i], ptr));
    assert forall|j: int|
        0 <= j < arena.regions@.len() && region_contains(#[trigger] arena.regions@[j], ptr)
        implies j == i && ptr - arena.regions@[j].start == 0 by {
        if j != i {
            lemma_arena_no_overlap(arena, i, j, ptr);
        }
    }
}

} // verus!
