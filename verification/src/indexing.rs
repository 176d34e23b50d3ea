//! Shape and stride arithmetic shared by the host side and the compute
//! kernels.
//!
//! A logical array view is described by a sequence of per-axis extents (its
//! shape) and a sequence of signed per-axis strides, in element units.  The
//! element that row-major iteration visits at linear index `id` lives at flat
//! offset `offset + strided_offset(shape, strides, id)` inside the underlying
//! storage.  A compute kernel recovers that offset from `id` by repeated
//! division and remainder against the extents, innermost axis first; the
//! functions here implement that decomposition and prove it equal to the
//! row-major definition.

use vstd::prelude::*;
use vstd::arithmetic::div_mod::{
    lemma_breakdown, lemma_div_denominator, lemma_fundamental_div_mod,
    lemma_fundamental_div_mod_converse, lemma_mod_division_less_than_divisor,
    lemma_div_pos_is_pos, lemma_div_is_ordered, lemma_multiply_divide_lt, lemma_small_mod,
};
use vstd::arithmetic::div_mod::lemma_basic_div;
use vstd::arithmetic::mul::{
    lemma_mul_inequality, lemma_mul_is_commutative, lemma_mul_is_associative,
    lemma_mul_strictly_positive, lemma_mul_by_zero_is_zero, lemma_mul_is_distributive_add,
};

verus! {

/// Extents as mathematical integers.
pub open spec fn ints_of_usizes(s: Seq<usize>) -> Seq<int> {
    s.map_values(|x: usize| x as int)
}

/// Strides as mathematical integers.
pub open spec fn ints_of_isizes(s: Seq<isize>) -> Seq<int> {
    s.map_values(|x: isize| x as int)
}

/// Device-side extents as mathematical integers.
pub open spec fn ints_of_u32s(s: Seq<u32>) -> Seq<int> {
    s.map_values(|x: u32| x as int)
}

/// Device-side strides as mathematical integers.
pub open spec fn ints_of_i32s(s: Seq<i32>) -> Seq<int> {
    s.map_values(|x: i32| x as int)
}

/// Every extent is at least one, so the shape describes a non-empty array.
pub open spec fn positive(shape: Seq<int>) -> bool {
    forall|k: int| 0 <= k < shape.len() ==> #[trigger] shape[k] >= 1
}

/// The number of logical elements of a shape: the product of its extents.
pub open spec fn count_of(shape: Seq<int>) -> int
    decreases shape.len(),
{
    if shape.len() == 0 {
        1
    } else {
        shape[0] * count_of(shape.skip(1))
    }
}

/// The flat element offset, relative to the view's base offset, of the
/// element that row-major iteration visits at linear index `id`: the
/// outermost coordinate is `id` divided by the element count of the inner
/// axes, and the inner axes recurse on the remainder.
pub open spec fn strided_offset(shape: Seq<int>, strides: Seq<int>, id: int) -> int
    decreases shape.len(),
{
    if shape.len() == 0 {
        0
    } else {
        let rest = count_of(shape.skip(1));
        (id / rest) * strides[0] + strided_offset(shape.skip(1), strides.skip(1), id % rest)
    }
}

/// The coordinate along axis `k` of the element at linear index `id`.
pub open spec fn coord_at(shape: Seq<int>, id: int, k: int) -> int {
    (id / count_of(shape.skip(k + 1))) % shape[k]
}

/// The strides of a dense row-major layout: along each axis, the element
/// count of the axes inside it.
pub open spec fn default_strides_of(shape: Seq<int>) -> Seq<int> {
    Seq::new(shape.len(), |k: int| count_of(shape.skip(k + 1)))
}

/// A positive shape has a positive element count.
pub proof fn lemma_count_pos(shape: Seq<int>)
    requires
        positive(shape),
    ensures
        count_of(shape) >= 1,
    decreases shape.len(),
{
    if shape.len() > 0 {
        assert(positive(shape.skip(1))) by {
            assert(forall|k: int|
                0 <= k < shape.skip(1).len() ==> #[trigger] shape.skip(1)[k] == shape[k + 1]);
        }
        lemma_count_pos(shape.skip(1));
        assert(count_of(shape) >= 1) by {
            lemma_mul_inequality(1, count_of(shape.skip(1)), shape[0]);
            lemma_mul_is_commutative(shape[0], count_of(shape.skip(1)));
        }
    }
}

/// The element count splits at any axis boundary into the product of the
/// outer prefix's count and the inner suffix's count.
pub proof fn lemma_count_split(shape: Seq<int>, k: int)
    requires
        0 <= k <= shape.len(),
    ensures
        count_of(shape) == count_of(shape.take(k)) * count_of(shape.skip(k)),
    decreases shape.len(),
{
    if shape.len() == 0 {
        assert(shape.take(k) =~= shape);
        assert(shape.skip(k) =~= shape);
    } else if k == 0 {
        assert(shape.take(0) =~= Seq::<int>::empty());
        assert(shape.skip(0) =~= shape);
    } else {
        let tail = shape.skip(1);
        lemma_count_split(tail, k - 1);
        assert(shape.take(k).skip(1) =~= tail.take(k - 1));
        assert(shape.skip(k) =~= tail.skip(k - 1));
        assert(count_of(shape.take(k)) == shape[0] * count_of(tail.take(k - 1)));
        assert(shape[0] * (count_of(tail.take(k - 1)) * count_of(tail.skip(k - 1)))
            == (shape[0] * count_of(tail.take(k - 1))) * count_of(tail.skip(k - 1))) by {
            lemma_mul_is_associative(
                shape[0],
                count_of(tail.take(k - 1)),
                count_of(tail.skip(k - 1)),
            );
        }
    }
}

/// One step of the innermost-first index decomposition that a compute kernel
/// runs: folding axis `k` into the suffix offset of the axes inside it, with
/// the axis coordinate recovered as `(id / count(inner)) % extent`.
pub proof fn lemma_suffix_step(shape: Seq<int>, strides: Seq<int>, id: int, k: int)
    requires
        shape.len() == strides.len(),
        positive(shape),
        0 <= id,
        0 <= k < shape.len(),
    ensures
        strided_offset(shape.skip(k), strides.skip(k), id % count_of(shape.skip(k)))
            == coord_at(shape, id, k) * strides[k]
               + strided_offset(shape.skip(k + 1), strides.skip(k + 1), id % count_of(shape.skip(k + 1))),
        id / count_of(shape.skip(k)) == (id / count_of(shape.skip(k + 1))) / shape[k],
{
    let a = shape[k];
    let inner = shape.skip(k + 1);
    let b = count_of(inner);
    assert(positive(inner)) by {
        assert(forall|j: int| 0 <= j < inner.len() ==> #[trigger] inner[j] == shape[j + k + 1]);
    }
    lemma_count_pos(inner);
    assert(shape.skip(k).skip(1) =~= inner);
    assert(strides.skip(k).skip(1) =~= strides.skip(k + 1));
    assert(shape.skip(k)[0] == a);
    assert(strides.skip(k)[0] == strides[k]);
    assert(count_of(shape.skip(k)) == a * b);
    lemma_mul_strictly_positive(a, b);

    let x = id % (a * b);
    // id % (a * b) == b * ((id / b) % a) + id % b
    lemma_breakdown(id, b, a);
    lemma_mul_is_commutative(b, a);
    assert(x == b * ((id / b) % a) + id % b);
    let q = (id / b) % a;
    let r = id % b;
    assert(0 <= r < b) by {
        lemma_mod_division_less_than_divisor(id, b);
    }
    assert(0 <= q) by {
        lemma_mod_division_less_than_divisor(id / b, a);
    }
    // Hence x / b == (id / b) % a and x % b == id % b.
    lemma_fundamental_div_mod_converse(x, b, q, r);
    assert(x / b == q);
    assert(x % b == r);

    assert(strided_offset(shape.skip(k), strides.skip(k), x)
        == (x / b) * strides[k] + strided_offset(inner, strides.skip(k + 1), x % b));
    assert(coord_at(shape, id, k) == q);

    // id / (a * b) == (id / b) / a
    lemma_div_denominator(id, b, a);
    lemma_mul_is_commutative(b, a);
    assert(id / (b * a) == (id / b) / a);
}

/// The strided offset of any in-range index stays within `(count - 1)` steps
/// of size `s`, the largest stride magnitude.
pub proof fn lemma_strided_offset_bound(shape: Seq<int>, strides: Seq<int>, id: int, s: int)
    requires
        shape.len() == strides.len(),
        positive(shape),
        0 <= id < count_of(shape),
        0 <= s,
        forall|k: int| 0 <= k < strides.len() ==> -s <= #[trigger] strides[k] <= s,
    ensures
        -((count_of(shape) - 1) * s) <= strided_offset(shape, strides, id)
            <= (count_of(shape) - 1) * s,
    decreases shape.len(),
{
    if shape.len() == 0 {
        assert(strided_offset(shape, strides, id) == 0);
    } else {
        let tail = shape.skip(1);
        let tstr = strides.skip(1);
        assert(positive(tail)) by {
            assert(forall|k: int| 0 <= k < tail.len() ==> #[trigger] tail[k] == shape[k + 1]);
        }
        assert(forall|k: int| 0 <= k < tstr.len() ==> -s <= #[trigger] tstr[k] <= s) by {
            assert(forall|k: int| 0 <= k < tstr.len() ==> #[trigger] tstr[k] == strides[k + 1]);
        }
        lemma_count_pos(tail);
        let rest = count_of(tail);
        let e = shape[0];
        let q = id / rest;
        let r = id % rest;
        assert(0 <= r < rest) by {
            lemma_mod_division_less_than_divisor(id, rest);
        }
        assert(0 <= q) by {
            lemma_div_pos_is_pos(id, rest);
        }
        assert(q <= e - 1) by {
            lemma_multiply_divide_lt(id, rest, e);
            lemma_mul_is_commutative(rest, e);
        }
        lemma_strided_offset_bound(tail, tstr, r, s);
        let inner = strided_offset(tail, tstr, r);
        assert(-(q * s) <= q * strides[0] <= q * s) by {
            lemma_mul_bounds_of_bounded(q, strides[0], s);
        }
        assert(q * s <= (e - 1) * s) by {
            lemma_mul_inequality(q, e - 1, s);
        }
        assert((e - 1) * s + (rest - 1) * s == (e - 1 + (rest - 1)) * s) by {
            lemma_mul_distributive_add(e - 1, rest - 1, s);
        }
        assert(e - 1 + (rest - 1) <= e * rest - 1) by {
            assert((e - 1) * (rest - 1) >= 0) by (nonlinear_arith)
                requires
                    e >= 1,
                    rest >= 1,
            ;
            assert(e * rest - e - rest + 1 >= 0) by (nonlinear_arith)
                requires
                    (e - 1) * (rest - 1) >= 0,
            ;
        }
        assert((e - 1 + (rest - 1)) * s <= (e * rest - 1) * s) by {
            lemma_mul_inequality(e - 1 + (rest - 1), e * rest - 1, s);
        }
    }
}

/// `-b <= x <= b` and `0 <= a` give `-(a * b) <= a * x <= a * b`.
proof fn lemma_mul_bounds_of_bounded(a: int, x: int, b: int)
    requires
        0 <= a,
        -b <= x <= b,
    ensures
        -(a * b) <= a * x <= a * b,
{
    assert(a * x <= a * b && -(a * b) <= a * x) by (nonlinear_arith)
        requires
            0 <= a,
            -b <= x <= b,
    ;
}

/// `(x + y) * z == x * z + y * z`.
proof fn lemma_mul_distributive_add(x: int, y: int, z: int)
    ensures
        (x + y) * z == x * z + y * z,
{
    assert((x + y) * z == x * z + y * z) by (nonlinear_arith);
}

/// With dense row-major strides, the strided offset of a logical index is
/// that index itself.
pub proof fn lemma_default_strides_identity(shape: Seq<int>, id: int)
    requires
        positive(shape),
        0 <= id < count_of(shape),
    ensures
        strided_offset(shape, default_strides_of(shape), id) == id,
    decreases shape.len(),
{
    if shape.len() == 0 {
        assert(count_of(shape) == 1);
    } else {
        let tail = shape.skip(1);
        assert(positive(tail)) by {
            assert(forall|k: int| 0 <= k < tail.len() ==> #[trigger] tail[k] == shape[k + 1]);
        }
        lemma_count_pos(tail);
        let rest = count_of(tail);
        let ds = default_strides_of(shape);
        assert(ds[0] == rest);
        assert(ds.skip(1) =~= default_strides_of(tail)) by {
            assert forall|k: int| 0 <= k < tail.len()
                implies #[trigger] ds.skip(1)[k] == default_strides_of(tail)[k] by {
                assert(shape.skip(k + 2) =~= tail.skip(k + 1));
                assert(ds.skip(1)[k] == ds[k + 1]);
            }
        }
        let r = id % rest;
        assert(0 <= r < rest) by {
            lemma_mod_division_less_than_divisor(id, rest);
        }
        lemma_default_strides_identity(tail, r);
        lemma_fundamental_div_mod(id, rest);
        lemma_mul_is_commutative(rest, id / rest);
    }
}

/// The per-element index decomposition that a generated compute kernel runs:
/// peel the innermost axis first, taking the remainder against its extent as
/// the coordinate and dividing the running index by the extent.
pub open spec fn kernel_offset(shape: Seq<int>, strides: Seq<int>, id: int) -> int
    decreases shape.len(),
{
    if shape.len() == 0 {
        0
    } else {
        (id % shape.last()) * strides.last() + kernel_offset(
            shape.drop_last(),
            strides.drop_last(),
            id / shape.last(),
        )
    }
}

/// The element count also peels at the innermost axis.
pub proof fn lemma_count_drop_last(shape: Seq<int>)
    requires
        shape.len() >= 1,
    ensures
        count_of(shape) == count_of(shape.drop_last()) * shape.last(),
    decreases shape.len(),
{
    if shape.len() == 1 {
        assert(shape.skip(1) =~= Seq::<int>::empty());
        assert(shape.drop_last() =~= Seq::<int>::empty());
        assert(count_of(shape.skip(1)) == 1);
        assert(count_of(shape.drop_last()) == 1);
        assert(count_of(shape) == shape[0] * 1);
        assert(shape.last() == shape[0]);
    } else {
        let tail = shape.skip(1);
        lemma_count_drop_last(tail);
        assert(shape.drop_last().skip(1) =~= tail.drop_last());
        assert(shape.drop_last()[0] == shape[0]);
        assert(count_of(shape.drop_last()) == shape[0] * count_of(tail.drop_last()));
        lemma_mul_is_associative(shape[0], count_of(tail.drop_last()), tail.last());
        assert(shape.last() == tail.last());
    }
}

/// The kernel's innermost-first decomposition lands on exactly the row-major
/// strided offset: what the device computes per output element agrees with
/// the host library's coordinate decomposition.
pub proof fn lemma_kernel_offset_matches(shape: Seq<int>, strides: Seq<int>, id: int)
    requires
        shape.len() == strides.len(),
        positive(shape),
        0 <= id < count_of(shape),
    ensures
        kernel_offset(shape, strides, id) == strided_offset(shape, strides, id),
    decreases shape.len(),
{
    if shape.len() == 0 {
    } else if shape.len() == 1 {
        assert(shape.skip(1) =~= Seq::<int>::empty());
        assert(strides.skip(1) =~= Seq::<int>::empty());
        assert(shape.drop_last() =~= Seq::<int>::empty());
        assert(strides.drop_last() =~= Seq::<int>::empty());
        assert(count_of(shape.skip(1)) == 1);
        assert(count_of(shape) == shape[0] * 1);
        assert(shape.last() == shape[0]);
        assert(strides.last() == strides[0]);
        assert(id % shape[0] == id) by {
            lemma_small_mod(id as nat, shape[0] as nat);
        }
        assert(strided_offset(shape.skip(1), strides.skip(1), id % 1) == 0);
        assert(kernel_offset(shape.drop_last(), strides.drop_last(), id / shape[0]) == 0);
        assert(strided_offset(shape, strides, id) == (id / 1) * strides[0] + 0);
        assert(id / 1 == id);
    } else {
        let tail = shape.skip(1);
        let stail = strides.skip(1);
        let last = shape.last();
        let slast = strides.last();
        assert(positive(tail)) by {
            assert(forall|k: int| 0 <= k < tail.len() ==> #[trigger] tail[k] == shape[k + 1]);
        }
        assert(tail.last() == last);
        assert(stail.last() == slast);
        let mid = count_of(tail.drop_last());
        assert(positive(tail.drop_last())) by {
            assert(forall|k: int|
                0 <= k < tail.drop_last().len() ==> #[trigger] tail.drop_last()[k] == tail[k]);
        }
        lemma_count_pos(tail.drop_last());
        assert(last >= 1);
        lemma_count_drop_last(tail);
        let rest = count_of(tail);
        assert(rest == mid * last);
        lemma_count_pos(tail);

        // id % rest splits into the innermost coordinate and the rest.
        lemma_mul_strictly_positive(mid, last);
        lemma_breakdown(id, last, mid);
        lemma_mul_is_commutative(last, mid);
        let x = id % rest;
        let q = (id / last) % mid;
        let r = id % last;
        assert(x == last * q + r);
        assert(0 <= r < last) by {
            lemma_mod_division_less_than_divisor(id, last);
        }
        assert(0 <= q < mid) by {
            lemma_div_pos_is_pos(id, last);
            lemma_mod_division_less_than_divisor(id / last, mid);
        }
        lemma_fundamental_div_mod_converse(x, last, q, r);
        assert(x / last == q);
        assert(x % last == r);
        lemma_div_denominator(id, last, mid);
        lemma_mul_is_commutative(last, mid);
        assert(id / rest == (id / last) / mid);

        // Unfold the row-major offset at the first axis and rewrite its tail
        // by induction.
        assert(0 <= x < rest) by {
            lemma_mod_division_less_than_divisor(id, rest);
        }
        lemma_kernel_offset_matches(tail, stail, x);
        assert(strided_offset(shape, strides, id) == (id / rest) * strides[0] + kernel_offset(
            tail,
            stail,
            x,
        ));
        assert(kernel_offset(tail, stail, x) == (x % last) * slast + kernel_offset(
            tail.drop_last(),
            stail.drop_last(),
            x / last,
        ));

        // Unfold the kernel offset at the innermost axis and rewrite what is
        // left by induction.
        let y = id / last;
        assert(0 <= y < count_of(shape.drop_last())) by {
            lemma_count_drop_last(shape);
            lemma_div_pos_is_pos(id, last);
            lemma_multiply_divide_lt(id, last, count_of(shape.drop_last()));
            lemma_mul_is_commutative(last, count_of(shape.drop_last()));
        }
        assert(positive(shape.drop_last())) by {
            assert(forall|k: int|
                0 <= k < shape.drop_last().len() ==> #[trigger] shape.drop_last()[k] == shape[k]);
        }
        lemma_kernel_offset_matches(shape.drop_last(), strides.drop_last(), y);
        assert(kernel_offset(shape, strides, id) == r * slast + strided_offset(
            shape.drop_last(),
            strides.drop_last(),
            y,
        ));
        assert(shape.drop_last().skip(1) =~= tail.drop_last());
        assert(strides.drop_last().skip(1) =~= stail.drop_last());
        assert(shape.drop_last()[0] == shape[0]);
        assert(strides.drop_last()[0] == strides[0]);
        assert(count_of(shape.drop_last().skip(1)) == mid);
        assert(strided_offset(shape.drop_last(), strides.drop_last(), y) == (y / mid) * strides[0]
            + strided_offset(tail.drop_last(), stail.drop_last(), y % mid));

        // The two sides now differ only in the shared innermost remainder.
        assert(0 <= y % mid < mid) by {
            lemma_mod_division_less_than_divisor(y, mid);
            lemma_div_pos_is_pos(id, last);
        }
        lemma_kernel_offset_matches(tail.drop_last(), stail.drop_last(), q);
    }
}

/// Dense row-major strides lie between one and the element count.
pub proof fn lemma_default_strides_bounds(shape: Seq<int>)
    requires
        positive(shape),
    ensures
        forall|k: int|
            0 <= k < shape.len()
                ==> 1 <= #[trigger] default_strides_of(shape)[k] <= count_of(shape),
{
    assert forall|k: int| 0 <= k < shape.len()
        implies 1 <= #[trigger] default_strides_of(shape)[k] <= count_of(shape) by {
        let inner = shape.skip(k + 1);
        assert(positive(inner)) by {
            assert(forall|j: int| 0 <= j < inner.len() ==> #[trigger] inner[j] == shape[j + k + 1]);
        }
        lemma_count_pos(inner);
        lemma_count_split(shape, k + 1);
        assert(positive(shape.take(k + 1))) by {
            assert(forall|j: int|
                0 <= j < k + 1 ==> #[trigger] shape.take(k + 1)[j] == shape[j]);
        }
        lemma_count_pos(shape.take(k + 1));
        lemma_mul_inequality(1, count_of(shape.take(k + 1)), count_of(inner));
        lemma_mul_is_commutative(count_of(shape.take(k + 1)), count_of(inner));
    }
}

/// The elements a nested row-major walk of a view visits, starting at
/// coordinate `i` of the outermost axis: for each coordinate in order, the
/// walk of the remaining axes at the stepped offset.  A rank-zero view holds
/// the one element at its offset.
pub open spec fn nested_from(
    data: Seq<u32>,
    shape: Seq<int>,
    strides: Seq<int>,
    offset: int,
    i: int,
) -> Seq<u32>
    decreases shape.len(), shape[0] - i,
{
    if shape.len() == 0 {
        seq![data[offset]]
    } else if i >= shape[0] {
        Seq::empty()
    } else {
        nested_from(data, shape.skip(1), strides.skip(1), offset + i * strides[0], 0)
            + nested_from(data, shape, strides, offset, i + 1)
    }
}

/// The elements of a view in nested row-major iteration order: the outermost
/// axis varies slowest, and each step along an axis moves by that axis's
/// stride.
pub open spec fn nested_elems(data: Seq<u32>, shape: Seq<int>, strides: Seq<int>, offset: int)
    -> Seq<u32> {
    nested_from(data, shape, strides, offset, 0)
}

/// The tail of a nested walk, described element by element.
proof fn lemma_nested_from_elems(
    data: Seq<u32>,
    shape: Seq<int>,
    strides: Seq<int>,
    offset: int,
    i: int,
)
    requires
        shape.len() == strides.len(),
        shape.len() >= 1,
        positive(shape),
        0 <= i <= shape[0],
    ensures
        nested_from(data, shape, strides, offset, i).len() == (shape[0] - i) * count_of(
            shape.skip(1),
        ),
        forall|j: int|
            0 <= j < (shape[0] - i) * count_of(shape.skip(1))
                ==> #[trigger] nested_from(data, shape, strides, offset, i)[j] == data[offset + (i
                + j / count_of(shape.skip(1))) * strides[0] + strided_offset(
                shape.skip(1),
                strides.skip(1),
                j % count_of(shape.skip(1)),
            )],
    decreases shape.len(), shape[0] - i,
{
    let tail = shape.skip(1);
    let stail = strides.skip(1);
    let rest = count_of(tail);
    assert(positive(tail)) by {
        assert(forall|k: int| 0 <= k < tail.len() ==> #[trigger] tail[k] == shape[k + 1]);
    }
    lemma_count_pos(tail);
    if i >= shape[0] {
        assert((shape[0] - i) * rest == 0) by {
            lemma_mul_by_zero_is_zero(rest);
        }
    } else {
        let head_off = offset + i * strides[0];
        let head = nested_from(data, tail, stail, head_off, 0);
        let rec = nested_from(data, shape, strides, offset, i + 1);
        assert(head.len() == rest && forall|j: int|
            0 <= j < rest ==> #[trigger] head[j] == data[head_off + strided_offset(
                tail,
                stail,
                j,
            )]) by {
            if tail.len() == 0 {
                assert(rest == 1);
                assert(head =~= seq![data[head_off]]);
                assert(forall|j: int|
                    0 <= j < 1 ==> #[trigger] strided_offset(tail, stail, j) == 0);
            } else {
                lemma_nested_from_elems(data, tail, stail, head_off, 0);
                assert(head.len() == (tail[0] - 0) * count_of(tail.skip(1)));
                assert(count_of(tail) == tail[0] * count_of(tail.skip(1)));
                assert forall|j: int| 0 <= j < rest implies #[trigger] head[j] == data[head_off
                    + strided_offset(tail, stail, j)] by {
                    assert(head[j] == data[head_off + (0 + j / count_of(tail.skip(1))) * stail[0]
                        + strided_offset(tail.skip(1), stail.skip(1), j % count_of(tail.skip(1)))]);
                }
            }
        }
        lemma_nested_from_elems(data, shape, strides, offset, i + 1);
        assert(rec.len() == (shape[0] - i - 1) * rest);
        assert((shape[0] - i) * rest == rest + (shape[0] - i - 1) * rest) by (nonlinear_arith);
        assert(nested_from(data, shape, strides, offset, i) == head + rec);
        assert forall|j: int| 0 <= j < (shape[0] - i) * rest
            implies #[trigger] nested_from(data, shape, strides, offset, i)[j] == data[offset + (i
            + j / rest) * strides[0] + strided_offset(tail, stail, j % rest)] by {
            if j < rest {
                assert((head + rec)[j] == head[j]);
                assert(j / rest == 0 && j % rest == j) by {
                    lemma_basic_div(j, rest);
                    lemma_small_mod(j as nat, rest as nat);
                }
            } else {
                assert((head + rec)[j] == rec[j - rest]);
                let jr = j - rest;
                assert(rec[jr] == data[offset + (i + 1 + jr / rest) * strides[0] + strided_offset(
                    tail,
                    stail,
                    jr % rest,
                )]);
                assert(j == rest * (jr / rest + 1) + jr % rest) by {
                    lemma_fundamental_div_mod(jr, rest);
                    lemma_mul_is_distributive_add(rest, jr / rest, 1);
                }
                assert(0 <= jr % rest < rest) by {
                    lemma_mod_division_less_than_divisor(jr, rest);
                }
                lemma_fundamental_div_mod_converse(j, rest, jr / rest + 1, jr % rest);
                assert(j / rest == jr / rest + 1 && j % rest == jr % rest);
                assert((i + 1 + jr / rest) == (i + j / rest));
            }
        }
    }
}

/// The nested row-major walk of a view visits exactly the elements that the
/// coordinate decomposition computes, in the same order: iteration order and
/// index arithmetic agree.
pub proof fn lemma_nested_is_decomposed(
    data: Seq<u32>,
    shape: Seq<int>,
    strides: Seq<int>,
    offset: int,
)
    requires
        shape.len() == strides.len(),
        positive(shape),
    ensures
        nested_elems(data, shape, strides, offset) == Seq::new(
            count_of(shape) as nat,
            |id: int| data[offset + strided_offset(shape, strides, id)],
        ),
{
    lemma_count_pos(shape);
    let target = Seq::new(
        count_of(shape) as nat,
        |id: int| data[offset + strided_offset(shape, strides, id)],
    );
    if shape.len() == 0 {
        assert(nested_elems(data, shape, strides, offset) =~= target);
    } else {
        lemma_nested_from_elems(data, shape, strides, offset, 0);
        let rest = count_of(shape.skip(1));
        assert(count_of(shape) == shape[0] * rest);
        assert forall|id: int| 0 <= id < count_of(shape)
            implies #[trigger] nested_elems(data, shape, strides, offset)[id] == target[id] by {
            assert(nested_elems(data, shape, strides, offset)[id] == data[offset + (0 + id / rest)
                * strides[0] + strided_offset(shape.skip(1), strides.skip(1), id % rest)]);
        }
        assert(nested_elems(data, shape, strides, offset) =~= target);
    }
}

/// The limits the dispatch protocol puts on a view: extents fit the kernel's
/// unsigned 32-bit shape buffer, strides fit its signed 32-bit stride buffer,
/// and the element count fits a signed 32-bit stride of a dense result.
pub open spec fn protocol_bounds(shape: Seq<int>, strides: Seq<int>) -> bool {
    &&& shape.len() == strides.len()
    &&& positive(shape)
    &&& forall|k: int| 0 <= k < shape.len() ==> #[trigger] shape[k] <= u32::MAX as int
    &&& forall|k: int|
        0 <= k < strides.len() ==> i32::MIN as int <= #[trigger] strides[k] <= i32::MAX as int
    &&& count_of(shape) <= i32::MAX as int
}

/// The protocol bounds, restated over the raw extent and stride vectors.
pub proof fn lemma_protocol_elem_bounds(shape: Seq<usize>, strides: Seq<isize>)
    requires
        protocol_bounds(ints_of_usizes(shape), ints_of_isizes(strides)),
    ensures
        forall|k: int| 0 <= k < shape.len() ==> #[trigger] shape[k] <= u32::MAX as usize,
        forall|k: int|
            0 <= k < strides.len()
                ==> i32::MIN as int <= #[trigger] strides[k] as int <= i32::MAX as int,
{
    assert forall|k: int| 0 <= k < shape.len() implies #[trigger] shape[k] <= u32::MAX
        as usize by {
        assert(ints_of_usizes(shape)[k] == shape[k] as int);
    }
    assert forall|k: int|
        0 <= k < strides.len() implies i32::MIN as int <= #[trigger] strides[k] as int <= i32::MAX
        as int by {
        assert(ints_of_isizes(strides)[k] == strides[k] as int);
    }
}

/// Every logical index of the view resolves to a flat element offset inside
/// storage of `data_len` elements.
pub open spec fn view_ok(data_len: int, offset: int, shape: Seq<int>, strides: Seq<int>) -> bool {
    forall|id: int|
        0 <= id < count_of(shape)
            ==> 0 <= offset + #[trigger] strided_offset(shape, strides, id) < data_len
}

/// Decompose the linear index `id` into one coordinate per axis, innermost
/// axis first, exactly as the generated compute kernel does: the coordinate
/// along an axis is the running remainder against that axis's extent.
pub fn ind2sub(id: u32, shape: &Vec<i32>, indices: &mut Vec<i32>)
    requires
        old(indices)@.len() == shape@.len(),
        positive(ints_of_i32s(shape@)),
        (id as int) < count_of(ints_of_i32s(shape@)),
    ensures
        final(indices)@.len() == shape@.len(),
        forall|k: int|
            0 <= k < shape@.len()
                ==> final(indices)@[k] as int == coord_at(ints_of_i32s(shape@), id as int, k),
{
    let ghost sh = ints_of_i32s(shape@);
    let n = shape.len();
    let mut rem: u64 = id as u64;
    let mut k = n;
    proof {
        assert(sh.skip(n as int) =~= Seq::<int>::empty());
    }
    while k > 0
        invariant
            k <= n,
            n == shape@.len() == indices@.len(),
            sh == ints_of_i32s(shape@),
            positive(sh),
            (id as int) < count_of(sh),
            rem as int == (id as int) / count_of(sh.skip(k as int)),
            rem <= id,
            forall|j: int|
                k <= j < n ==> #[trigger] indices@[j] as int == coord_at(sh, id as int, j),
        decreases k,
    {
        k = k - 1;
        let ghost b = count_of(sh.skip(k + 1));
        proof {
            assert(positive(sh.skip(k + 1))) by {
                assert(forall|j: int|
                    0 <= j < sh.skip(k + 1).len() ==> #[trigger] sh.skip(k + 1)[j] == sh[j + k + 1]);
            }
            lemma_count_pos(sh.skip(k + 1));
            assert(sh.skip(k as int)[0] == sh[k as int]);
            assert(sh.skip(k as int).skip(1) =~= sh.skip(k + 1));
            assert(count_of(sh.skip(k as int)) == sh[k as int] * b);
            lemma_div_denominator(id as int, b, sh[k as int]);
            lemma_mul_is_commutative(b, sh[k as int]);
            lemma_div_pos_is_pos(id as int, b);
            lemma_mod_division_less_than_divisor(id as int / b, sh[k as int]);
        }
        let s = shape[k];
        let c = rem % (s as u64);
        indices[k] = c as i32;
        rem = rem / (s as u64);
        proof {
            lemma_div_is_ordered(0, id as int, b);
        }
    }
    proof {
        assert(sh.skip(0) =~= sh);
    }
}

/// The flat element index that the element at logical index `id` of the view
/// `(offset, shape, strides)` occupies in its underlying storage, computed by
/// the same innermost-first decomposition the compute kernels run.
pub fn strided_index(shape: &Vec<usize>, strides: &Vec<isize>, offset: usize, id: usize) -> (r:
    usize)
    requires
        protocol_bounds(ints_of_usizes(shape@), ints_of_isizes(strides@)),
        (id as int) < count_of(ints_of_usizes(shape@)),
        offset as int + strided_offset(
            ints_of_usizes(shape@),
            ints_of_isizes(strides@),
            id as int,
        ) >= 0,
        offset as int + strided_offset(
            ints_of_usizes(shape@),
            ints_of_isizes(strides@),
            id as int,
        ) <= usize::MAX as int,
    ensures
        r as int == offset as int + strided_offset(
            ints_of_usizes(shape@),
            ints_of_isizes(strides@),
            id as int,
        ),
{
    let ghost sh = ints_of_usizes(shape@);
    let ghost st = ints_of_isizes(strides@);
    let bound: i64 = 0x8000_0000;
    let n = shape.len();
    let mut rem: u64 = id as u64;
    let mut acc: i64 = 0;
    let mut k = n;
    proof {
        assert(sh.skip(n as int) =~= Seq::<int>::empty());
        assert(st.skip(n as int) =~= Seq::<int>::empty());
        lemma_count_pos(sh);
        lemma_mod_division_less_than_divisor(id as int, count_of(sh));
        vstd::arithmetic::div_mod::lemma_small_mod(id as nat, count_of(sh) as nat);
    }
    while k > 0
        invariant
            k <= n,
            n == shape@.len() == strides@.len(),
            sh == ints_of_usizes(shape@),
            st == ints_of_isizes(strides@),
            bound == 0x8000_0000i64,
            protocol_bounds(sh, st),
            (id as int) < count_of(sh),
            rem as int == (id as int) / count_of(sh.skip(k as int)),
            rem <= id,
            acc as int == strided_offset(
                sh.skip(k as int),
                st.skip(k as int),
                (id as int) % count_of(sh.skip(k as int)),
            ),
            -((count_of(sh.skip(k as int)) - 1) * (bound as int)) <= acc as int
                <= (count_of(sh.skip(k as int)) - 1) * (bound as int),
            count_of(sh.skip(k as int)) <= count_of(sh),
        decreases k,
    {
        k = k - 1;
        let ghost b = count_of(sh.skip(k + 1));
        let ghost suff = sh.skip(k as int);
        let ghost suffst = st.skip(k as int);
        proof {
            assert(positive(suff)) by {
                assert(forall|j: int|
                    0 <= j < suff.len() ==> #[trigger] suff[j] == sh[j + k]);
            }
            lemma_count_pos(sh.skip(k + 1));
            assert(suff[0] == sh[k as int]);
            assert(suff.skip(1) =~= sh.skip(k + 1));
            assert(suffst.skip(1) =~= st.skip(k + 1));
            assert(count_of(suff) == sh[k as int] * b);
            lemma_suffix_step(sh, st, id as int, k as int);
            lemma_div_pos_is_pos(id as int, b);
            lemma_mod_division_less_than_divisor(id as int / b, sh[k as int]);
            // The new accumulator equals the suffix offset one axis further
            // out, which the bound lemma keeps inside the i64 range.
            lemma_count_pos(suff);
            lemma_mod_division_less_than_divisor(id as int, count_of(suff));
            assert forall|j: int|
                0 <= j < suffst.len() implies -(bound as int) <= #[trigger] suffst[j] <= bound
                as int by {
                assert(suffst[j] == st[j + k as int]);
                assert(i32::MIN as int <= st[j + k as int] <= i32::MAX as int);
            }
            lemma_strided_offset_bound(
                suff,
                suffst,
                (id as int) % count_of(suff),
                bound as int,
            );
            // The suffix count stays within the total count.
            lemma_count_split(sh, k as int);
            assert(positive(sh.take(k as int))) by {
                assert(forall|j: int|
                    0 <= j < k ==> #[trigger] sh.take(k as int)[j] == sh[j]);
            }
            lemma_count_pos(sh.take(k as int));
            lemma_mul_inequality(1, count_of(sh.take(k as int)), count_of(suff));
            lemma_mul_is_commutative(count_of(sh.take(k as int)), count_of(suff));
            // The per-step product stays within the i64 range.
            lemma_mul_bounds_of_bounded(
                ((id as int) / b) % sh[k as int],
                st[k as int],
                bound as int,
            );
            lemma_mul_inequality(
                ((id as int) / b) % sh[k as int],
                u32::MAX as int,
                bound as int,
            );
        }
        let s = shape[k];
        let c = rem % (s as u64);
        let step: i64 = (c as i64) * (strides[k] as i64);
        acc = acc + step;
        rem = rem / (s as u64);
        proof {
            lemma_div_is_ordered(0, id as int, b);
        }
    }
    proof {
        assert(sh.skip(0) =~= sh);
        assert(st.skip(0) =~= st);
    }
    let r128: i128 = (offset as i128) + (acc as i128);
    r128 as usize
}

/// The number of logical elements of a shape, as executable code.
pub fn elem_count(shape: &Vec<usize>) -> (r: usize)
    requires
        positive(ints_of_usizes(shape@)),
        count_of(ints_of_usizes(shape@)) <= i32::MAX as int,
    ensures
        r as int == count_of(ints_of_usizes(shape@)),
{
    let ghost sh = ints_of_usizes(shape@);
    let n = shape.len();
    let mut acc: usize = 1;
    let mut k = n;
    proof {
        assert(sh.skip(n as int) =~= Seq::<int>::empty());
    }
    while k > 0
        invariant
            k <= n,
            n == shape@.len(),
            sh == ints_of_usizes(shape@),
            positive(sh),
            count_of(sh) <= i32::MAX as int,
            acc as int == count_of(sh.skip(k as int)),
        decreases k,
    {
        k = k - 1;
        let ghost suff = sh.skip(k as int);
        proof {
            assert(suff[0] == sh[k as int]);
            assert(suff.skip(1) =~= sh.skip(k + 1));
            assert(count_of(suff) == sh[k as int] * count_of(sh.skip(k + 1)));
            lemma_count_split(sh, k as int);
            assert(positive(sh.take(k as int))) by {
                assert(forall|j: int|
                    0 <= j < k ==> #[trigger] sh.take(k as int)[j] == sh[j]);
            }
            lemma_count_pos(sh.take(k as int));
            assert(positive(suff)) by {
                assert(forall|j: int| 0 <= j < suff.len() ==> #[trigger] suff[j] == sh[j + k]);
            }
            lemma_count_pos(suff);
            lemma_mul_inequality(1, count_of(sh.take(k as int)), count_of(suff));
            lemma_mul_is_commutative(count_of(sh.take(k as int)), count_of(suff));
            assert(count_of(suff) <= i32::MAX as int);
            lemma_mul_is_commutative(sh[k as int], count_of(sh.skip(k + 1)));
            assert(acc as int * sh[k as int] == count_of(suff));
        }
        acc = acc * shape[k];
    }
    proof {
        assert(sh.skip(0) =~= sh);
    }
    acc
}

/// The strides of a dense row-major array of the given shape: along each
/// axis, the element count of the axes inside it.
pub fn default_strides(shape: &Vec<usize>) -> (r: Vec<isize>)
    requires
        positive(ints_of_usizes(shape@)),
        count_of(ints_of_usizes(shape@)) <= i32::MAX as int,
    ensures
        r@.len() == shape@.len(),
        ints_of_isizes(r@) =~= default_strides_of(ints_of_usizes(shape@)),
{
    let ghost sh = ints_of_usizes(shape@);
    let n = shape.len();
    let mut rev: Vec<isize> = Vec::new();
    let mut acc: usize = 1;
    let mut k = n;
    proof {
        assert(sh.skip(n as int) =~= Seq::<int>::empty());
    }
    while k > 0
        invariant
            k <= n,
            n == shape@.len(),
            sh == ints_of_usizes(shape@),
            positive(sh),
            count_of(sh) <= i32::MAX as int,
            acc as int == count_of(sh.skip(k as int)),
            acc as int <= i32::MAX as int,
            rev@.len() == n - k,
            forall|j: int|
                0 <= j < rev@.len()
                    ==> #[trigger] rev@[j] as int == count_of(sh.skip(n - j)),
        decreases k,
    {
        k = k - 1;
        let ghost suff = sh.skip(k as int);
        proof {
            assert(suff[0] == sh[k as int]);
            assert(suff.skip(1) =~= sh.skip(k + 1));
            assert(count_of(suff) == sh[k as int] * count_of(sh.skip(k + 1)));
            lemma_count_split(sh, k as int);
            assert(positive(sh.take(k as int))) by {
                assert(forall|j: int|
                    0 <= j < k ==> #[trigger] sh.take(k as int)[j] == sh[j]);
            }
            lemma_count_pos(sh.take(k as int));
            assert(positive(suff)) by {
                assert(forall|j: int| 0 <= j < suff.len() ==> #[trigger] suff[j] == sh[j + k]);
            }
            lemma_count_pos(suff);
            lemma_mul_inequality(1, count_of(sh.take(k as int)), count_of(suff));
            lemma_mul_is_commutative(count_of(sh.take(k as int)), count_of(suff));
            assert(count_of(suff) <= i32::MAX as int);
            lemma_mul_is_commutative(sh[k as int], count_of(sh.skip(k + 1)));
            assert(acc as int * sh[k as int] == count_of(suff));
        }
        rev.push(acc as isize);
        acc = acc * shape[k];
    }
    let mut out: Vec<isize> = Vec::new();
    let mut j: usize = 0;
    while j < n
        invariant
            j <= n,
            n == shape@.len(),
            sh == ints_of_usizes(shape@),
            rev@.len() == n,
            forall|i: int|
                0 <= i < n ==> #[trigger] rev@[i] as int == count_of(sh.skip(n - i)),
            out@.len() == j,
            forall|i: int|
                0 <= i < j ==> #[trigger] out@[i] as int == count_of(sh.skip(i + 1)),
        decreases n - j,
    {
        out.push(rev[n - 1 - j]);
        j = j + 1;
    }
    out
}

/// The extents of a shape converted for the kernel's unsigned 32-bit shape
/// buffer.
pub fn shape_to_u32(shape: &Vec<usize>) -> (r: Vec<u32>)
    requires
        forall|k: int| 0 <= k < shape@.len() ==> #[trigger] shape@[k] <= u32::MAX as usize,
    ensures
        r@.len() == shape@.len(),
        ints_of_u32s(r@) =~= ints_of_usizes(shape@),
{
    let mut out: Vec<u32> = Vec::new();
    let mut k: usize = 0;
    let n = shape.len();
    while k < n
        invariant
            k <= n,
            n == shape@.len(),
            forall|j: int| 0 <= j < n ==> #[trigger] shape@[j] <= u32::MAX as usize,
            out@.len() == k,
            forall|j: int| 0 <= j < k ==> #[trigger] out@[j] as int == shape@[j] as int,
        decreases n - k,
    {
        out.push(shape[k] as u32);
        k = k + 1;
    }
    out
}

/// The strides of a view converted for the kernel's signed 32-bit stride
/// buffer.
pub fn strides_to_i32(strides: &Vec<isize>) -> (r: Vec<i32>)
    requires
        forall|k: int|
            0 <= k < strides@.len()
                ==> i32::MIN as int <= #[trigger] strides@[k] as int <= i32::MAX as int,
    ensures
        r@.len() == strides@.len(),
        ints_of_i32s(r@) =~= ints_of_isizes(strides@),
{
    let mut out: Vec<i32> = Vec::new();
    let mut k: usize = 0;
    let n = strides.len();
    while k < n
        invariant
            k <= n,
            n == strides@.len(),
            forall|j: int|
                0 <= j < n ==> i32::MIN as int <= #[trigger] strides@[j] as int <= i32::MAX as int,
            out@.len() == k,
            forall|j: int| 0 <= j < k ==> #[trigger] out@[j] as int == strides@[j] as int,
        decreases n - k,
    {
        out.push(strides[k] as i32);
        k = k + 1;
    }
    out
}

} // verus!
