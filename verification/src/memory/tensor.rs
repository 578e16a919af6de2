//! The integer side of tensors: the half-precision bit pattern of a
//! single-precision one, the stored integers of quantized data, and the
//! index arithmetic of transposing.
use vstd::prelude::*;
use core::ops::Range;
use super::{MemoryError, QuantType, TensorShape, dims_product};
use crate::text::{decimal, push_decimal};

verus! {

/// The half-precision pattern of a single-precision bit pattern, by
/// truncation: exponents too small give zero, too large give infinity of
/// the same sign, otherwise the top ten fraction bits are kept.
pub open spec fn half_of(bits: u32) -> u16 {
    let sign = bits / 0x8000_0000;
    let exp = (bits / 0x80_0000) % 0x100;
    let frac = bits % 0x80_0000;
    if exp <= 112 {
        0
    } else if exp >= 143 {
        (sign * 0x8000 + 0x7C00) as u16
    } else {
        (sign * 0x8000 + (exp - 112) * 0x400 + frac / 0x2000) as u16
    }
}

/// The half-precision bit pattern for a single-precision bit pattern.
pub fn half_bits(bits: u32) -> (r: u16)
    ensures
        r == half_of(bits),
{
    let sign = (bits >> 31) & 1;
    let exp = (bits >> 23) & 0xFF;
    let frac = bits & 0x007F_FFFF;
    assert(sign == bits / 0x8000_0000 && exp == (bits / 0x80_0000) % 0x100 && frac == bits % 0x80_0000)
        by (bit_vector)
        requires
            sign == (bits >> 31) & 1,
            exp == (bits >> 23) & 0xFF,
            frac == bits & 0x007F_FFFF,
    ;
    if exp <= 112 {
        0
    } else if exp >= 143 {
        let s = sign as u16;
        assert(sign <= 1);
        let r = (s << 15) | 0x7C00;
        assert(r == s * 0x8000 + 0x7C00) by (bit_vector)
            requires
                s <= 1,
                r == (s << 15) | 0x7C00,
        ;
        r
    } else {
        let s = sign as u16;
        let e = (exp - 112) as u16;
        let f = (frac >> 13) as u16;
        assert(f == frac / 0x2000) by (bit_vector)
            requires
                frac < 0x80_0000,
                f == (frac >> 13) as u16,
        ;
        assert(sign <= 1 && 1 <= e <= 30 && f < 0x400);
        let r = (s << 15) | (e << 10) | f;
        assert(r == s * 0x8000 + e * 0x400 + f) by (bit_vector)
            requires
                s <= 1,
                e <= 30,
                f < 0x400,
                r == (s << 15) | (e << 10) | f,
        ;
        r
    }
}

/// A stored byte read as a signed 8-bit value.
pub open spec fn signed_byte(b: u8) -> i32 {
    if b < 128 {
        b as i32
    } else {
        (b as int - 256) as i32
    }
}

/// Four stored bytes read as a little-endian 32-bit pattern.
pub open spec fn le_word(b0: u8, b1: u8, b2: u8, b3: u8) -> u32 {
    (b0 as int + b1 as int * 0x100 + b2 as int * 0x1_0000 + b3 as int * 0x100_0000) as u32
}

/// The integer that element `i` of data of type `dtype` stores: the byte
/// itself for the 4-bit, unsigned and binary types, the signed byte for the
/// 8-bit type, and the little-endian 32-bit pattern for the 32-bit types.
pub open spec fn stored_value(dtype: QuantType, data: Seq<u8>, i: int) -> i32 {
    match dtype {
        QuantType::Q8 => signed_byte(data[i]),
        QuantType::F32 | QuantType::Mixed => le_word(data[4 * i], data[4 * i + 1], data[4 * i + 2], data[4 * i + 3]) as i32,
        _ => data[i] as i32,
    }
}

/// How many of `n` elements of type `dtype` the data holds whole.
pub open spec fn stored_count(dtype: QuantType, data_len: nat, n: nat) -> nat {
    let whole = match dtype {
        QuantType::F32 | QuantType::Mixed => data_len / 4,
        _ => data_len,
    };
    if n <= whole {
        n
    } else {
        whole
    }
}

fn word_at(data: &Vec<u8>, off: usize) -> (r: i32)
    requires
        off + 4 <= data@.len(),
    ensures
        r == le_word(data@[off as int], data@[off + 1], data@[off + 2], data@[off + 3]) as i32,
{
    let len = data.len();
    assert(off + 4 <= len);
    let b0 = data[off] as u32;
    let b1 = data[off + 1] as u32;
    let b2 = data[off + 2] as u32;
    let b3 = data[off + 3] as u32;
    let w = b0 | (b1 << 8) | (b2 << 16) | (b3 << 24);
    assert(w == b0 + b1 * 0x100 + b2 * 0x1_0000 + b3 * 0x100_0000) by (bit_vector)
        requires
            b0 < 256,
            b1 < 256,
            b2 < 256,
            b3 < 256,
            w == b0 | (b1 << 8) | (b2 << 16) | (b3 << 24),
    ;
    w as i32
}

fn signed_at(b: u8) -> (r: i32)
    ensures
        r == signed_byte(b),
{
    let s = b as i8;
    assert(s == (if b < 128 { b as int } else { b as int - 256 })) by (bit_vector)
        requires
            s == b as i8,
    ;
    s as i32
}

/// The integers stored for the first `n` elements of data of type `dtype`,
/// as far as the data holds them whole. Half-precision data is not read
/// here: its elements are turned into single-precision values first.
pub fn read_stored_values(dtype: QuantType, data: &Vec<u8>, n: usize) -> (r: Vec<i32>)
    requires
        dtype != QuantType::F16,
    ensures
        r@.len() == stored_count(dtype, data@.len(), n as nat),
        forall|i: int| 0 <= i < r@.len() ==> #[trigger] r@[i] == stored_value(dtype, data@, i),
{
    let count: usize = match dtype {
        QuantType::F32 | QuantType::Mixed => {
            if n <= data.len() / 4 {
                n
            } else {
                data.len() / 4
            }
        },
        _ => {
            if n <= data.len() {
                n
            } else {
                data.len()
            }
        },
    };
    let len = data.len();
    let mut r: Vec<i32> = Vec::new();
    let mut i: usize = 0;
    while i < count
        invariant
            len == data@.len(),
            dtype != QuantType::F16,
            count == stored_count(dtype, data@.len(), n as nat),
            i <= count,
            r@.len() == i,
            forall|q: int| 0 <= q < i ==> #[trigger] r@[q] == stored_value(dtype, data@, q),
        decreases count - i,
    {
        let v = match dtype {
            QuantType::Q8 => signed_at(data[i]),
            QuantType::F32 | QuantType::Mixed => {
                assert(4 * i + 4 <= data@.len());
                word_at(data, 4 * i)
            },
            _ => data[i] as i32,
        };
        r.push(v);
        i += 1;
    }
    r
}

/// The elements of a `rows` by `cols` matrix stored by rows, stored by
/// columns: element (i, j) moves from `i * cols + j` to `j * rows + i`.
pub fn transpose_elements<T: Copy>(data: &Vec<T>, rows: usize, cols: usize) -> (r: Vec<T>)
    requires
        rows * cols <= usize::MAX,
        data@.len() >= rows * cols,
    ensures
        r@.len() == rows * cols,
        forall|i: int, j: int|
            0 <= i < rows && 0 <= j < cols ==> #[trigger] r@[j * rows + i] == data@[i * cols + j],
{
    let mut r: Vec<T> = Vec::new();
    let mut j: usize = 0;
    while j < cols
        invariant
            rows * cols <= usize::MAX,
            data@.len() >= rows * cols,
            j <= cols,
            r@.len() == j * rows,
            forall|a: int, b: int|
                0 <= a < rows && 0 <= b < j ==> #[trigger] r@[b * rows + a] == data@[a * cols + b],
        decreases cols - j,
    {
        let mut i: usize = 0;
        while i < rows
            invariant
                rows * cols <= usize::MAX,
                data@.len() >= rows * cols,
                j < cols,
                i <= rows,
                r@.len() == j * rows + i,
                forall|a: int, b: int|
                    0 <= a < rows && 0 <= b < j ==> #[trigger] r@[b * rows + a] == data@[a * cols + b],
                forall|a: int| 0 <= a < i ==> #[trigger] r@[j * rows + a] == data@[a * cols + j],
            decreases rows - i,
        {
            proof {
                assert(i * cols + j < rows * cols) by (nonlinear_arith)
                    requires
                        i < rows,
                        j < cols,
                ;
            }
            let k = i * cols + j;
            let ghost before = r@;
            r.push(data[k]);
            proof {
                assert forall|a: int, b: int| 0 <= a < rows && 0 <= b < j implies #[trigger] r@[b * rows + a]
                    == data@[a * cols + b] by {
                    assert(b * rows + a < j * rows) by (nonlinear_arith)
                        requires
                            0 <= a < rows,
                            0 <= b < j,
                    ;
                    assert(r@[b * rows + a] == before[b * rows + a]);
                }
                assert forall|a: int| 0 <= a < i + 1 implies #[trigger] r@[j * rows + a] == data@[a * cols + j] by {
                    if a < i {
                        assert(r@[j * rows + a] == before[j * rows + a]);
                    }
                }
            }
            i += 1;
        }
        proof {
            assert((j + 1) * rows == j * rows + rows) by (nonlinear_arith);
            assert forall|a: int, b: int| 0 <= a < rows && 0 <= b < j + 1 implies #[trigger] r@[b * rows + a]
                == data@[a * cols + b] by {
                if b == j {
                    assert(r@[j * rows + a] == data@[a * cols + j]);
                }
            }
        }
        j += 1;
    }
    assert(cols * rows == rows * cols) by (nonlinear_arith);
    r
}

// ---------------------------------------------------------------------------
// Shape checks of concatenation and slicing
// ---------------------------------------------------------------------------

/// The first dimension from `i` on, other than `axis`, where `a` and `b`
/// differ, comparing as far as the shorter one goes.
pub open spec fn first_dim_mismatch(a: Seq<usize>, b: Seq<usize>, axis: int, i: int) -> Option<int>
    decreases a.len() - i,
{
    if i < 0 || i >= a.len() || i >= b.len() {
        None
    } else if i != axis && a[i] != b[i] {
        Some(i)
    } else {
        first_dim_mismatch(a, b, axis, i + 1)
    }
}

/// The first shape from `k` on that does not fit `shapes[0]` for joining
/// along `axis`: its position, and the first differing dimension when the
/// ranks agree (`None` when they do not).
pub open spec fn concat_fault(shapes: Seq<Seq<usize>>, axis: int, k: int) -> Option<(int, Option<int>)>
    decreases shapes.len() - k,
{
    if k < 1 || k >= shapes.len() {
        None
    } else if shapes[k].len() != shapes[0].len() {
        Some((k, None))
    } else {
        match first_dim_mismatch(shapes[0], shapes[k], axis, 0) {
            Some(i) => Some((k, Some(i))),
            None => concat_fault(shapes, axis, k + 1),
        }
    }
}

/// The dimensions of the shapes.
pub open spec fn shape_dims(shapes: Seq<TensorShape>) -> Seq<Seq<usize>> {
    shapes.map_values(|t: TensorShape| t.dims@)
}

/// The text of the error for joining along `axis` of `shapes` (which the
/// checks refuse).
pub open spec fn concat_error_text(shapes: Seq<Seq<usize>>, axis: int) -> Seq<char> {
    if shapes.len() == 0 {
        "至少需要一个张量进行拼接"@
    } else if axis >= shapes[0].len() {
        "拼接轴 "@ + decimal(axis as nat) + " 超出张量秩 "@ + decimal(shapes[0].len())
    } else {
        match concat_fault(shapes, axis, 1) {
            Some((k, None)) => "张量秩不匹配: "@ + decimal(shapes[0].len()) + " vs "@ + decimal(shapes[k].len()),
            Some((k, Some(i))) => "维度 "@ + decimal(i as nat) + " 大小不匹配: "@ + decimal(shapes[0][i] as nat) + " vs "@
                + decimal(shapes[k][i] as nat),
            None => Seq::empty(),
        }
    }
}

/// Whether the error for `shapes` is a rank disagreement.
pub open spec fn concat_rank_fault(shapes: Seq<Seq<usize>>, axis: int) -> bool {
    shapes.len() > 0 && axis < shapes[0].len() && concat_fault(shapes, axis, 1) matches Some((_, None))
}

/// Whether tensors of these shapes can be joined along `axis`.
pub open spec fn concat_fits(shapes: Seq<Seq<usize>>, axis: int) -> bool {
    shapes.len() > 0 && axis < shapes[0].len() && concat_fault(shapes, axis, 1) is None
}

fn dims_mismatch(a: &Vec<usize>, b: &Vec<usize>, axis: usize) -> (r: Option<usize>)
    ensures
        match r {
            Some(i) => i < a@.len() && i < b@.len() && first_dim_mismatch(a@, b@, axis as int, 0) == Some(i as int),
            None => first_dim_mismatch(a@, b@, axis as int, 0) is None,
        },
{
    let n = if a.len() <= b.len() {
        a.len()
    } else {
        b.len()
    };
    let mut i: usize = 0;
    while i < n
        invariant
            n <= a@.len(),
            n <= b@.len(),
            n == a@.len() || n == b@.len(),
            i <= n,
            first_dim_mismatch(a@, b@, axis as int, 0) == first_dim_mismatch(a@, b@, axis as int, i as int),
        decreases n - i,
    {
        if i != axis && a[i] != b[i] {
            return Some(i);
        }
        i += 1;
    }
    None
}

/// Checks that tensors of these shapes can be joined along `axis`: there
/// is at least one, the axis is below the first one's rank, and every other
/// shape has that rank and agrees with the first outside the axis.
pub fn concat_check(shapes: &Vec<TensorShape>, axis: usize) -> (r: Result<(), MemoryError>)
    ensures
        concat_fits(shape_dims(shapes@), axis as int) ==> r is Ok,
        !concat_fits(shape_dims(shapes@), axis as int) && concat_rank_fault(shape_dims(shapes@), axis as int) ==> (r matches Err(
            MemoryError::IncompatibleType(s),
        ) && s@ == concat_error_text(shape_dims(shapes@), axis as int)),
        !concat_fits(shape_dims(shapes@), axis as int) && !concat_rank_fault(shape_dims(shapes@), axis as int) ==> (r matches Err(
            MemoryError::InvalidShape(s),
        ) && s@ == concat_error_text(shape_dims(shapes@), axis as int)),
{
    let ghost ds = shape_dims(shapes@);
    if shapes.len() == 0 {
        return Err(MemoryError::InvalidShape(String::from_str("至少需要一个张量进行拼接")));
    }
    let rank = shapes[0].dims.len();
    assert(ds[0] == shapes@[0].dims@);
    if axis >= rank {
        let mut m = String::from_str("拼接轴 ");
        push_decimal(&mut m, axis as u64);
        m.append(" 超出张量秩 ");
        push_decimal(&mut m, rank as u64);
        return Err(MemoryError::InvalidShape(m));
    }
    let mut k: usize = 1;
    while k < shapes.len()
        invariant
            ds == shape_dims(shapes@),
            shapes@.len() > 0,
            ds[0] == shapes@[0].dims@,
            rank == ds[0].len(),
            axis < rank,
            1 <= k <= shapes@.len(),
            concat_fault(ds, axis as int, 1) == concat_fault(ds, axis as int, k as int),
        decreases shapes@.len() - k,
    {
        let t = &shapes[k];
        assert(ds[k as int] == t.dims@);
        if t.dims.len() != rank {
            let mut m = String::from_str("张量秩不匹配: ");
            push_decimal(&mut m, rank as u64);
            m.append(" vs ");
            push_decimal(&mut m, t.dims.len() as u64);
            return Err(MemoryError::IncompatibleType(m));
        }
        match dims_mismatch(&shapes[0].dims, &t.dims, axis) {
            Some(i) => {
                let mut m = String::from_str("维度 ");
                push_decimal(&mut m, i as u64);
                m.append(" 大小不匹配: ");
                push_decimal(&mut m, shapes[0].dims[i] as u64);
                m.append(" vs ");
                push_decimal(&mut m, t.dims[i] as u64);
                proof {
                    assert(concat_fault(ds, axis as int, k as int) == Some((k as int, Some(i as int))));
                    assert(ds[0][i as int] == shapes@[0].dims@[i as int]);
                    assert(!concat_rank_fault(ds, axis as int));
                }
                return Err(MemoryError::InvalidShape(m));
            },
            None => {},
        }
        k += 1;
    }
    Ok(())
}

/// The sum of the sizes of dimension `axis` over the shapes.
pub open spec fn axis_sum(shapes: Seq<Seq<usize>>, axis: int) -> int
    decreases shapes.len(),
{
    if shapes.len() == 0 {
        0
    } else {
        axis_sum(shapes.drop_last(), axis) + shapes.last()[axis]
    }
}

proof fn lemma_axis_sum_prefix(shapes: Seq<Seq<usize>>, axis: int, i: int)
    requires
        0 <= i <= shapes.len(),
    ensures
        axis_sum(shapes.take(i), axis) <= axis_sum(shapes, axis),
    decreases shapes.len(),
{
    if i < shapes.len() {
        assert(shapes.drop_last().take(i) =~= shapes.take(i));
        lemma_axis_sum_prefix(shapes.drop_last(), axis, i);
    } else {
        assert(shapes.take(i) =~= shapes);
    }
}

/// The shape of the joined tensor: the first shape with dimension `axis`
/// replaced by the sum of that dimension over all shapes.
pub fn concat_dims(shapes: &Vec<TensorShape>, axis: usize) -> (r: TensorShape)
    requires
        concat_fits(shape_dims(shapes@), axis as int),
        axis_sum(shape_dims(shapes@), axis as int) <= usize::MAX,
    ensures
        r.dims@ == shapes@[0].dims@.update(axis as int, axis_sum(shape_dims(shapes@), axis as int) as usize),
{
    let ghost ds = shape_dims(shapes@);
    assert(ds[0] == shapes@[0].dims@);
    let mut total: usize = 0;
    let mut k: usize = 0;
    while k < shapes.len()
        invariant
            ds == shape_dims(shapes@),
            concat_fits(ds, axis as int),
            axis_sum(ds, axis as int) <= usize::MAX,
            k <= shapes@.len(),
            total == axis_sum(ds.take(k as int), axis as int),
            forall|q: int| 0 <= q < k ==> axis < (#[trigger] ds[q]).len(),
        decreases shapes@.len() - k,
    {
        proof {
            assert(ds[k as int] == shapes@[k as int].dims@);
            lemma_concat_ranks(ds, axis as int, 1, k as int);
            assert(ds.take(k + 1).drop_last() =~= ds.take(k as int));
            lemma_axis_sum_prefix(ds, axis as int, k + 1);
        }
        total = total + shapes[k].dims[axis];
        k += 1;
    }
    assert(ds.take(k as int) =~= ds);
    let mut dims = shapes[0].dims.clone();
    dims.set(axis, total);
    TensorShape::new(dims)
}

proof fn lemma_concat_ranks(ds: Seq<Seq<usize>>, axis: int, k: int, q: int)
    requires
        ds.len() > 0,
        0 <= axis < ds[0].len(),
        1 <= k,
        concat_fault(ds, axis, k) is None,
        0 <= q < ds.len(),
        q == 0 || q >= k,
    ensures
        axis < ds[q].len(),
    decreases ds.len() - k,
{
    if q >= k && k < ds.len() {
        if q > k {
            lemma_concat_ranks(ds, axis, k + 1, q);
        }
    }
}

/// The text of the error for slicing a tensor of dimensions `dims` by
/// `ranges` (which the checks refuse).
pub open spec fn slice_error_text(dims: Seq<usize>, ranges: Seq<Range<usize>>) -> Seq<char> {
    if ranges.len() != dims.len() {
        "切片维度数 "@ + decimal(ranges.len()) + " 与张量秩 "@ + decimal(dims.len()) + " 不匹配"@
    } else {
        let i = first_range_past(dims, ranges, 0);
        "切片范围超出维度 "@ + decimal(i as nat) + " 的大小: ["@ + decimal(ranges[i].start as nat) + ", "@ + decimal(
            ranges[i].end as nat,
        ) + ") > "@ + decimal(dims[i] as nat)
    }
}

/// The first dimension from `i` on whose range ends past its size (the
/// length when there is none).
pub open spec fn first_range_past(dims: Seq<usize>, ranges: Seq<Range<usize>>, i: int) -> int
    decreases ranges.len() - i,
{
    if i < 0 || i >= ranges.len() {
        ranges.len() as int
    } else if ranges[i].end > dims[i] {
        i
    } else {
        first_range_past(dims, ranges, i + 1)
    }
}

/// Whether `ranges` can slice a tensor of dimensions `dims`: one range per
/// dimension, each ending within it.
pub open spec fn slice_fits(dims: Seq<usize>, ranges: Seq<Range<usize>>) -> bool {
    ranges.len() == dims.len() && forall|i: int| 0 <= i < ranges.len() ==> (#[trigger] ranges[i]).end <= dims[i]
}

proof fn lemma_first_range_past(dims: Seq<usize>, ranges: Seq<Range<usize>>, i: int)
    requires
        ranges.len() == dims.len(),
        0 <= i <= ranges.len(),
    ensures
        i <= first_range_past(dims, ranges, i) <= ranges.len(),
        first_range_past(dims, ranges, i) < ranges.len() ==> ranges[first_range_past(dims, ranges, i)].end
            > dims[first_range_past(dims, ranges, i)],
        first_range_past(dims, ranges, i) == ranges.len() ==> forall|q: int| i <= q < ranges.len() ==> (#[trigger] ranges[q]).end <= dims[q],
    decreases ranges.len() - i,
{
    if i < ranges.len() && ranges[i].end <= dims[i] {
        lemma_first_range_past(dims, ranges, i + 1);
        assert forall|q: int| i <= q < ranges.len() && first_range_past(dims, ranges, i) == ranges.len() implies (#[trigger] ranges[q]).end
            <= dims[q] by {
            if q > i {
            }
        }
    }
}

/// Checks that `ranges` can slice a tensor of dimensions `dims`: one range
/// per dimension, each ending within its dimension.
pub fn slice_check(dims: &Vec<usize>, ranges: &[Range<usize>]) -> (r: Result<(), MemoryError>)
    ensures
        slice_fits(dims@, ranges@) ==> r is Ok,
        !slice_fits(dims@, ranges@) ==> (r matches Err(MemoryError::InvalidShape(s)) && s@ == slice_error_text(
            dims@,
            ranges@,
        )),
{
    if ranges.len() != dims.len() {
        let mut m = String::from_str("切片维度数 ");
        push_decimal(&mut m, ranges.len() as u64);
        m.append(" 与张量秩 ");
        push_decimal(&mut m, dims.len() as u64);
        m.append(" 不匹配");
        return Err(MemoryError::InvalidShape(m));
    }
    let mut i: usize = 0;
    while i < ranges.len()
        invariant
            ranges@.len() == dims@.len(),
            i <= ranges@.len(),
            first_range_past(dims@, ranges@, 0) == first_range_past(dims@, ranges@, i as int),
            forall|q: int| 0 <= q < i ==> (#[trigger] ranges@[q]).end <= dims@[q],
        decreases ranges@.len() - i,
    {
        if ranges[i].end > dims[i] {
            let mut m = String::from_str("切片范围超出维度 ");
            push_decimal(&mut m, i as u64);
            m.append(" 的大小: [");
            push_decimal(&mut m, ranges[i].start as u64);
            m.append(", ");
            push_decimal(&mut m, ranges[i].end as u64);
            m.append(") > ");
            push_decimal(&mut m, dims[i] as u64);
            proof {
                assert(!slice_fits(dims@, ranges@));
            }
            return Err(MemoryError::InvalidShape(m));
        }
        i += 1;
    }
    Ok(())
}

/// The sizes of a slice: each range's length.
pub fn slice_dims(ranges: &[Range<usize>]) -> (r: Vec<usize>)
    requires
        forall|i: int| 0 <= i < ranges@.len() ==> (#[trigger] ranges@[i]).start <= ranges@[i].end,
    ensures
        r@.len() == ranges@.len(),
        forall|i: int| 0 <= i < ranges@.len() ==> #[trigger] r@[i] == ranges@[i].end - ranges@[i].start,
{
    let mut r: Vec<usize> = Vec::new();
    let mut i: usize = 0;
    while i < ranges.len()
        invariant
            forall|q: int| 0 <= q < ranges@.len() ==> (#[trigger] ranges@[q]).start <= ranges@[q].end,
            i <= ranges@.len(),
            r@.len() == i,
            forall|q: int| 0 <= q < i ==> #[trigger] r@[q] == ranges@[q].end - ranges@[q].start,
        decreases ranges@.len() - i,
    {
        assert(ranges@[i as int].start <= ranges@[i as int].end);
        r.push(ranges[i].end - ranges[i].start);
        i += 1;
    }
    r
}

// ---------------------------------------------------------------------------
// Slicing
// ---------------------------------------------------------------------------

/// The product of the sizes from dimension `from` on: the stride of
/// dimension `from - 1` in data stored by rows.
pub open spec fn tail_product(dims: Seq<usize>, from: int) -> nat {
    dims_product(dims.subrange(from, dims.len() as int))
}

/// Multiplying the sizes from dimension `from` on, left to right, every
/// running product fits in `usize`.
pub open spec fn tail_fold_fits(dims: Seq<usize>, from: int) -> bool {
    forall|k: int| from <= k <= dims.len() ==> #[trigger] dims_product(dims.subrange(from, k)) <= usize::MAX
}

/// At every level that the walk over `ranges` reaches from level `d`, the
/// stride it multiplies out fits in `usize`; a level is reached when the
/// ranges of all earlier levels are not empty.
pub open spec fn strides_fit(dims: Seq<usize>, ranges: Seq<Range<usize>>, d: int) -> bool
    decreases dims.len() - d,
{
    if d < 0 || d >= dims.len() {
        true
    } else {
        tail_fold_fits(dims, d + 1) && (ranges[d].start < ranges[d].end ==> strides_fit(dims, ranges, d + 1))
    }
}

/// The elements that the ranges pick from level `d` on, for the element
/// block starting at offset `base` of data stored by rows: at the last
/// level the element at `base` when the data holds it; above it, for each
/// index of the level's range in order, the picks of the next level from
/// that index's offset.
pub open spec fn slice_walk<T>(data: Seq<T>, dims: Seq<usize>, ranges: Seq<Range<usize>>, d: int, base: int) -> Seq<T>
    decreases dims.len() - d, 1int, 0int,
{
    if d >= dims.len() {
        if 0 <= base < data.len() {
            seq![data[base]]
        } else {
            Seq::empty()
        }
    } else {
        slice_span(data, dims, ranges, d, base, ranges[d].start as int)
    }
}

/// The picks of level `d` for the indices of its range from `i` on.
pub open spec fn slice_span<T>(
    data: Seq<T>,
    dims: Seq<usize>,
    ranges: Seq<Range<usize>>,
    d: int,
    base: int,
    i: int,
) -> Seq<T>
    decreases dims.len() - d, 0int, ranges[d].end - i,
{
    if d < 0 || d >= dims.len() || i >= ranges[d].end {
        Seq::empty()
    } else {
        slice_walk(data, dims, ranges, d + 1, base + i * tail_product(dims, d + 1)) + slice_span(
            data,
            dims,
            ranges,
            d,
            base,
            i + 1,
        )
    }
}

proof fn lemma_product_first(s: Seq<usize>)
    requires
        s.len() > 0,
    ensures
        dims_product(s) == s[0] as nat * dims_product(s.drop_first()),
    decreases s.len(),
{
    if s.len() == 1 {
        assert(s.drop_last() =~= Seq::<usize>::empty());
        assert(s.drop_first() =~= Seq::<usize>::empty());
        assert(dims_product(s.drop_last()) == 1);
        assert(dims_product(s.drop_first()) == 1);
        assert(dims_product(s) == s.last() as nat);
    } else {
        lemma_product_first(s.drop_last());
        assert(s.drop_last().drop_first() =~= s.drop_first().drop_last());
        assert(s.drop_last()[0] == s[0]);
        assert(s.drop_first().last() == s.last());
        let p = dims_product(s.drop_first().drop_last());
        let a = s[0] as nat;
        let l = s.last() as nat;
        let q = dims_product(s.drop_last());
        assert(q == a * p);
        assert(dims_product(s) == q * l);
        assert(dims_product(s.drop_first()) == p * l);
        assert(a * p * l == a * (p * l)) by (nonlinear_arith);
        assert(q * l == a * (p * l));
    }
}

proof fn lemma_tail_step(dims: Seq<usize>, d: int)
    requires
        0 <= d < dims.len(),
    ensures
        tail_product(dims, d) == dims[d] as nat * tail_product(dims, d + 1),
{
    let s = dims.subrange(d, dims.len() as int);
    lemma_product_first(s);
    assert(s.drop_first() =~= dims.subrange(d + 1, dims.len() as int));
}

fn tail_product_exec(dims: &Vec<usize>, from: usize) -> (r: usize)
    requires
        from <= dims@.len(),
        tail_fold_fits(dims@, from as int),
    ensures
        r == tail_product(dims@, from as int),
{
    let mut p: usize = 1;
    let mut k: usize = from;
    assert(dims@.subrange(from as int, from as int) =~= Seq::<usize>::empty());
    while k < dims.len()
        invariant
            from <= k <= dims@.len(),
            tail_fold_fits(dims@, from as int),
            p == dims_product(dims@.subrange(from as int, k as int)),
        decreases dims@.len() - k,
    {
        proof {
            assert(dims@.subrange(from as int, k + 1).drop_last() =~= dims@.subrange(from as int, k as int));
            assert(dims_product(dims@.subrange(from as int, k + 1)) <= usize::MAX);
        }
        p = p * dims[k];
        k += 1;
    }
    p
}

/// Whether multiplying the sizes from dimension `from` on stays in `usize`.
fn tail_fold_in_range(dims: &Vec<usize>, from: usize) -> (r: bool)
    requires
        from <= dims@.len(),
    ensures
        r == tail_fold_fits(dims@, from as int),
{
    let mut p: usize = 1;
    let mut k: usize = from;
    assert(dims@.subrange(from as int, from as int) =~= Seq::<usize>::empty());
    while k < dims.len()
        invariant
            from <= k <= dims@.len(),
            p == dims_product(dims@.subrange(from as int, k as int)),
            forall|q: int| from <= q <= k ==> #[trigger] dims_product(dims@.subrange(from as int, q)) <= usize::MAX,
        decreases dims@.len() - k,
    {
        proof {
            assert(dims@.subrange(from as int, k + 1).drop_last() =~= dims@.subrange(from as int, k as int));
        }
        match p.checked_mul(dims[k]) {
            Some(q) => {
                p = q;
            },
            None => {
                assert(dims_product(dims@.subrange(from as int, k + 1)) > usize::MAX);
                return false;
            },
        }
        k += 1;
    }
    true
}

/// Whether slicing by `ranges` multiplies out its strides within `usize`.
pub fn slice_strides_in_range(dims: &Vec<usize>, ranges: &[Range<usize>]) -> (r: bool)
    requires
        ranges@.len() == dims@.len(),
    ensures
        r == strides_fit(dims@, ranges@, 0),
{
    let mut d: usize = 0;
    while d < dims.len()
        invariant
            ranges@.len() == dims@.len(),
            d <= dims@.len(),
            strides_fit(dims@, ranges@, 0) == strides_fit(dims@, ranges@, d as int),
        decreases dims@.len() - d,
    {
        if !tail_fold_in_range(dims, d + 1) {
            return false;
        }
        if ranges[d].start >= ranges[d].end {
            return true;
        }
        d += 1;
    }
    true
}

fn slice_walk_exec<T: Copy>(
    data: &Vec<T>,
    dims: &Vec<usize>,
    ranges: &[Range<usize>],
    d: usize,
    base: usize,
    result: &mut Vec<T>,
)
    requires
        ranges@.len() == dims@.len(),
        d <= dims@.len(),
        forall|e: int| 0 <= e < ranges@.len() ==> (#[trigger] ranges@[e]).end <= dims@[e],
        strides_fit(dims@, ranges@, d as int),
        base + tail_product(dims@, d as int) <= usize::MAX + 1,
    ensures
        final(result)@ == old(result)@ + slice_walk(data@, dims@, ranges@, d as int, base as int),
    decreases dims@.len() - d,
{
    if d == dims.len() {
        if base < data.len() {
            result.push(data[base]);
        } else {
            assert(old(result)@ + slice_walk(data@, dims@, ranges@, d as int, base as int) =~= old(result)@);
        }
        return;
    }
    let stride = tail_product_exec(dims, d + 1);
    proof {
        lemma_tail_step(dims@, d as int);
    }
    let start = ranges[d].start;
    let end = ranges[d].end;
    let n = dims.len();
    let ghost r0 = result@;
    let mut i: usize = start;
    if start < end {
        while i < end
            invariant
                ranges@.len() == dims@.len(),
                n == dims@.len(),
                d < dims@.len(),
                forall|e: int| 0 <= e < ranges@.len() ==> (#[trigger] ranges@[e]).end <= dims@[e],
                strides_fit(dims@, ranges@, d + 1),
                start == ranges@[d as int].start,
                end == ranges@[d as int].end,
                end <= dims@[d as int],
                start <= i <= end,
                stride == tail_product(dims@, d + 1),
                tail_product(dims@, d as int) == dims@[d as int] * stride,
                base + tail_product(dims@, d as int) <= usize::MAX + 1,
                r0 + slice_span(data@, dims@, ranges@, d as int, base as int, start as int) == result@ + slice_span(
                    data@,
                    dims@,
                    ranges@,
                    d as int,
                    base as int,
                    i as int,
                ),
            decreases end - i,
        {
            proof {
                assert((i + 1) * stride <= dims@[d as int] * stride) by (nonlinear_arith)
                    requires
                        i + 1 <= dims@[d as int],
                ;
                assert((i + 1) * stride == i * stride + stride) by (nonlinear_arith);
                if stride == 0 {
                    assert(i * stride == 0) by (nonlinear_arith)
                        requires
                            stride == 0,
                    ;
                }
                assert(base + i * stride <= usize::MAX);
            }
            let offset = base + i * stride;
            let ghost before = result@;
            slice_walk_exec(data, dims, ranges, d + 1, offset, result);
            proof {
                let w = slice_walk(data@, dims@, ranges@, d + 1, offset as int);
                let rest = slice_span(data@, dims@, ranges@, d as int, base as int, i + 1);
                assert(slice_span(data@, dims@, ranges@, d as int, base as int, i as int) == w + rest);
                assert(before + (w + rest) =~= (before + w) + rest);
            }
            i += 1;
        }
    }
    proof {
        assert(slice_span(data@, dims@, ranges@, d as int, base as int, i as int) =~= Seq::<T>::empty());
        assert(result@ + Seq::<T>::empty() =~= result@);
    }
}

/// The elements of data stored by rows with dimensions `dims` that the
/// ranges pick, in row order (see `slice_walk`).
pub fn slice_elements<T: Copy>(data: &Vec<T>, dims: &Vec<usize>, ranges: &[Range<usize>]) -> (r: Vec<T>)
    requires
        slice_fits(dims@, ranges@),
        dims_product(dims@) <= usize::MAX,
        strides_fit(dims@, ranges@, 0),
    ensures
        r@ == slice_walk(data@, dims@, ranges@, 0, 0),
{
    let mut r: Vec<T> = Vec::new();
    assert(dims@.subrange(0, dims@.len() as int) =~= dims@);
    slice_walk_exec(data, dims, ranges, 0, 0, &mut r);
    assert(Seq::<T>::empty() + slice_walk(data@, dims@, ranges@, 0, 0) =~= slice_walk(data@, dims@, ranges@, 0, 0));
    r
}

/// Transposing twice gives the matrix back: transposing a `rows` by `cols`
/// matrix `d` into `t`, and `t` (a `cols` by `rows` matrix) into `u`, makes
/// `u` hold the elements of `d`.
pub proof fn law_transpose_twice<T>(d: Seq<T>, t: Seq<T>, u: Seq<T>, rows: nat, cols: nat)
    requires
        d.len() >= rows * cols,
        t.len() == rows * cols,
        forall|i: int, j: int| 0 <= i < rows && 0 <= j < cols ==> #[trigger] t[j * rows + i] == d[i * cols + j],
        u.len() == cols * rows,
        forall|j: int, i: int| 0 <= j < cols && 0 <= i < rows ==> #[trigger] u[i * cols + j] == t[j * rows + i],
    ensures
        u == d.take((rows * cols) as int),
{
    assert(cols * rows == rows * cols) by (nonlinear_arith);
    assert forall|k: int| 0 <= k < u.len() implies #[trigger] u[k] == d[k] by {
        let c = cols as int;
        let r = rows as int;
        assert(c > 0) by (nonlinear_arith)
            requires
                0 <= k < r * c,
                r >= 0,
                c >= 0,
        ;
        let i = k / c;
        let j = k % c;
        vstd::arithmetic::div_mod::lemma_fundamental_div_mod(k, c);
        assert(0 <= j < c);
        assert(0 <= i < r) by (nonlinear_arith)
            requires
                k == c * i + j,
                0 <= j < c,
                0 <= k < r * c,
                c > 0,
        ;
        assert(i * c + j == k) by (nonlinear_arith)
            requires
                k == c * i + j,
        ;
        assert(u[i * c + j] == t[j * r + i]);
        assert(t[j * r + i] == d[i * c + j]);
    }
    assert(u =~= d.take((rows * cols) as int));
}

} // verus!
