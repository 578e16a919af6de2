//! Memory for models: element types, tensor shapes, and regions that hand
//! out aligned blocks first-fit.
use vstd::prelude::*;
use crate::text::{decimal, push_decimal};

mod pool;
mod tensor;
pub use pool::{MemoryPool, region_entries, region_size_sum, fresh_region, merged, law_register_release};
pub use tensor::{half_bits, half_of, read_stored_values, stored_value, stored_count, signed_byte, le_word, transpose_elements, concat_check, concat_dims, slice_check, slice_dims, concat_fits, concat_fault, concat_rank_fault, concat_error_text, first_dim_mismatch, shape_dims, axis_sum, slice_fits, slice_error_text, first_range_past, slice_elements, slice_strides_in_range, slice_walk, slice_span, strides_fit, tail_product, tail_fold_fits, law_transpose_twice};

verus! {

// ---------------------------------------------------------------------------
// Errors
// ---------------------------------------------------------------------------

/// An error of the memory service.
#[derive(Debug, Clone, PartialEq, Eq)]
pub enum MemoryError {
    OutOfMemory { requested: usize, available: usize },
    InvalidShape(String),
    InvalidQuantType(String),
    QuantizationError(String),
    RegionNotFound(u64),
    RegionFull { region_id: u64, requested: usize, available: usize },
    TensorNotFound(String),
    TensorAlreadyExists(String),
    InvalidAlignment(usize),
    DeallocateError(String),
    IncompatibleType(String),
}

/// The human-readable text of an error.
pub open spec fn memory_error_text(e: MemoryError) -> Seq<char> {
    match e {
        MemoryError::OutOfMemory { requested, available } => "内存不足: 请求 "@ + decimal(requested as nat) + " 字节, 可用 "@
            + decimal(available as nat) + " 字节"@,
        MemoryError::InvalidShape(s) => "无效的形状: "@ + s@,
        MemoryError::InvalidQuantType(s) => "无效的量化类型: "@ + s@,
        MemoryError::QuantizationError(s) => "量化错误: "@ + s@,
        MemoryError::RegionNotFound(id) => "内存区域未找到: "@ + decimal(id as nat),
        MemoryError::RegionFull { region_id, requested, available } => "内存区域 "@ + decimal(region_id as nat)
            + " 已满: 请求 "@ + decimal(requested as nat) + " 字节, 可用 "@ + decimal(available as nat) + " 字节"@,
        MemoryError::TensorNotFound(s) => "张量未找到: "@ + s@,
        MemoryError::TensorAlreadyExists(s) => "张量已存在: "@ + s@,
        MemoryError::InvalidAlignment(a) => "无效的对齐: "@ + decimal(a as nat),
        MemoryError::DeallocateError(s) => "释放错误: "@ + s@,
        MemoryError::IncompatibleType(s) => "类型不兼容: "@ + s@,
    }
}

fn prefixed(prefix: &str, s: &String) -> (r: String)
    ensures
        r@ == prefix@ + s@,
{
    let mut r = String::from_str(prefix);
    r.append(s.as_str());
    r
}

impl MemoryError {
    /// The human-readable text of the error.
    pub fn message(&self) -> (r: String)
        ensures
            r@ == memory_error_text(*self),
    {
        match self {
            MemoryError::OutOfMemory { requested, available } => {
                let mut r = String::from_str("内存不足: 请求 ");
                push_decimal(&mut r, *requested as u64);
                r.append(" 字节, 可用 ");
                push_decimal(&mut r, *available as u64);
                r.append(" 字节");
                r
            },
            MemoryError::InvalidShape(s) => prefixed("无效的形状: ", s),
            MemoryError::InvalidQuantType(s) => prefixed("无效的量化类型: ", s),
            MemoryError::QuantizationError(s) => prefixed("量化错误: ", s),
            MemoryError::RegionNotFound(id) => {
                let mut r = String::from_str("内存区域未找到: ");
                push_decimal(&mut r, *id);
                r
            },
            MemoryError::RegionFull { region_id, requested, available } => {
                let mut r = String::from_str("内存区域 ");
                push_decimal(&mut r, *region_id);
                r.append(" 已满: 请求 ");
                push_decimal(&mut r, *requested as u64);
                r.append(" 字节, 可用 ");
                push_decimal(&mut r, *available as u64);
                r.append(" 字节");
                r
            },
            MemoryError::TensorNotFound(s) => prefixed("张量未找到: ", s),
            MemoryError::TensorAlreadyExists(s) => prefixed("张量已存在: ", s),
            MemoryError::InvalidAlignment(a) => {
                let mut r = String::from_str("无效的对齐: ");
                push_decimal(&mut r, *a as u64);
                r
            },
            MemoryError::DeallocateError(s) => prefixed("释放错误: ", s),
            MemoryError::IncompatibleType(s) => prefixed("类型不兼容: ", s),
        }
    }
}

// ---------------------------------------------------------------------------
// Element types and shapes
// ---------------------------------------------------------------------------

/// The type of a tensor's elements.
#[derive(Debug, Clone, Copy, PartialEq, Eq, Structural)]
pub enum QuantType {
    Q4,
    Q8,
    F16,
    B1,
    F32,
    U8,
    Mixed,
}

impl QuantType {
    /// Bytes an element takes in storage (sub-byte types take a whole byte).
    pub fn bytes_per_element(&self) -> (r: usize)
        ensures
            r == match *self {
                QuantType::F16 => 2usize,
                QuantType::F32 | QuantType::Mixed => 4,
                _ => 1,
            },
    {
        match self {
            QuantType::Q4 => 1,
            QuantType::Q8 => 1,
            QuantType::F16 => 2,
            QuantType::B1 => 1,
            QuantType::F32 => 4,
            QuantType::U8 => 1,
            QuantType::Mixed => 4,
        }
    }

    /// Bits of an element.
    pub fn bits(&self) -> (r: usize)
        ensures
            r == match *self {
                QuantType::Q4 => 4usize,
                QuantType::Q8 | QuantType::U8 => 8,
                QuantType::F16 => 16,
                QuantType::B1 => 1,
                QuantType::F32 | QuantType::Mixed => 32,
            },
    {
        match self {
            QuantType::Q4 => 4,
            QuantType::Q8 => 8,
            QuantType::F16 => 16,
            QuantType::B1 => 1,
            QuantType::F32 => 32,
            QuantType::U8 => 8,
            QuantType::Mixed => 32,
        }
    }

    /// Whether the type is a quantized integer type.
    pub fn is_quantized(&self) -> (r: bool)
        ensures
            r == (*self is Q4 || *self is Q8 || *self is B1 || *self is U8),
    {
        match self {
            QuantType::Q4 | QuantType::Q8 | QuantType::B1 | QuantType::U8 => true,
            QuantType::F16 | QuantType::F32 | QuantType::Mixed => false,
        }
    }
}

/// The product of the sizes.
pub open spec fn dims_product(dims: Seq<usize>) -> nat
    decreases dims.len(),
{
    if dims.len() == 0 {
        1
    } else {
        dims_product(dims.drop_last()) * (dims.last() as nat)
    }
}

/// The sizes of a tensor's dimensions.
#[derive(Debug, Clone, PartialEq, Eq)]
pub struct TensorShape {
    pub dims: Vec<usize>,
}

impl TensorShape {
    pub fn new(dims: Vec<usize>) -> (r: TensorShape)
        ensures
            r.dims@ == dims@,
    {
        TensorShape { dims }
    }

    pub fn rank(&self) -> (r: usize)
        ensures
            r == self.dims@.len(),
    {
        self.dims.len()
    }

    /// The number of elements: the product of the sizes (one for a
    /// scalar); each running product must fit in `usize`.
    pub fn num_elements(&self) -> (r: usize)
        requires
            forall|i: int| 0 <= i <= self.dims@.len() ==> #[trigger] dims_product(self.dims@.take(i)) <= usize::MAX,
        ensures
            r == dims_product(self.dims@),
    {
        let mut p: usize = 1;
        let mut i: usize = 0;
        while i < self.dims.len()
            invariant
                i <= self.dims@.len(),
                forall|k: int| 0 <= k <= self.dims@.len() ==> #[trigger] dims_product(self.dims@.take(k)) <= usize::MAX,
                p == dims_product(self.dims@.take(i as int)),
            decreases self.dims@.len() - i,
        {
            proof {
                assert(self.dims@.take(i + 1).drop_last() =~= self.dims@.take(i as int));
                assert(dims_product(self.dims@.take(i + 1)) <= usize::MAX);
            }
            p = p * self.dims[i];
            i += 1;
        }
        assert(self.dims@.take(i as int) =~= self.dims@);
        p
    }

    pub fn is_scalar(&self) -> (r: bool)
        ensures
            r == (self.dims@.len() == 0),
    {
        self.dims.len() == 0
    }

    pub fn is_vector(&self) -> (r: bool)
        ensures
            r == (self.dims@.len() == 1),
    {
        self.dims.len() == 1
    }

    pub fn is_matrix(&self) -> (r: bool)
        ensures
            r == (self.dims@.len() == 2),
    {
        self.dims.len() == 2
    }
}

// ---------------------------------------------------------------------------
// Regions
// ---------------------------------------------------------------------------

/// What a region holds.
#[derive(Debug, Clone, Copy, PartialEq, Eq, Structural)]
pub enum MemoryRegionType {
    Weights,
    Activations,
    Gradients,
    KVCache,
    Buffer,
    Scratch,
}


/// A handed-out block: its offset in the region and its size.
#[derive(Debug, Clone, Copy)]
struct AllocatedBlock {
    offset: usize,
    size: usize,
}

/// Blocks as (offset, size) pairs.
spec fn pairs_of(v: Seq<AllocatedBlock>) -> Seq<(usize, usize)> {
    v.map_values(|b: AllocatedBlock| (b.offset, b.size))
}

/// Offsets never decrease along the list.
pub open spec fn offsets_sorted(bs: Seq<(usize, usize)>) -> bool {
    forall|i: int, j: int| 0 <= i < j < bs.len() ==> #[trigger] bs[i].0 <= #[trigger] bs[j].0
}

/// `addr` rounded up by the alignment mask: `(addr + al - 1) & !(al - 1)`.
pub open spec fn align_up(addr: u64, al: u64) -> u64 {
    ((addr + al - 1) as u64) & !((al - 1) as u64)
}

/// `x` has exactly one bit set.
pub open spec fn power_of_two(x: usize) -> bool {
    x != 0 && x & ((x - 1) as usize) == 0
}

/// The larger of the requested alignment and the region's own.
pub open spec fn effective_alignment(alignment: usize, own: usize) -> usize {
    if alignment >= own {
        alignment
    } else {
        own
    }
}

/// The outcome of a first-fit search.
pub enum Fit {
    /// A block fits at this offset.
    At(u64),
    /// No gap is large enough.
    Full,
    /// The search's arithmetic leaves `u64`: aligning a gap's start or
    /// computing a block's end overflows.
    Overflow,
}

/// First fit: walking the blocks by offset from `cur`, the first gap whose
/// aligned start leaves room for `size` bytes before the next block, or
/// before the end of the region `total`. A gap whose aligned start lies
/// past the next block is skipped; one past the region's end has no room.
pub open spec fn first_fit(bs: Seq<(usize, usize)>, cur: u64, al: u64, size: usize, total: usize) -> Fit
    decreases bs.len(),
{
    if bs.len() == 0 {
        if cur + al > u64::MAX {
            Fit::Overflow
        } else {
            let a = align_up(cur, al);
            if a <= total && total - a >= size {
                Fit::At(a)
            } else {
                Fit::Full
            }
        }
    } else {
        let b = bs[0];
        if b.0 + b.1 > u64::MAX || cur + al > u64::MAX {
            Fit::Overflow
        } else {
            let a = align_up(cur, al);
            if a <= b.0 && b.0 - a >= size {
                Fit::At(a)
            } else {
                first_fit(bs.drop_first(), (b.0 + b.1) as u64, al, size, total)
            }
        }
    }
}

/// Where a block at offset `a` goes: after every block whose offset is at
/// most `a`.
pub open spec fn insert_pos(bs: Seq<(usize, usize)>, a: u64) -> int
    decreases bs.len(),
{
    if bs.len() == 0 {
        0
    } else if bs.last().0 <= a {
        bs.len() as int
    } else {
        insert_pos(bs.drop_last(), a)
    }
}

/// The bytes left between consecutive blocks, walking them in order from
/// `prev_end`: a gap counts when a block starts after the end of the one
/// before it.
pub open spec fn gap_sum(bs: Seq<(usize, usize)>, prev_end: int) -> int
    decreases bs.len(),
{
    if bs.len() == 0 {
        0
    } else {
        (if bs[0].0 > prev_end {
            bs[0].0 - prev_end
        } else {
            0
        }) + gap_sum(bs.drop_first(), bs[0].0 + bs[0].1)
    }
}

/// Walking the blocks in order, every running gap total and block end fits
/// in `usize`.
pub open spec fn gap_walk_fits(bs: Seq<(usize, usize)>, prev_end: int, acc: int) -> bool
    decreases bs.len(),
{
    if bs.len() == 0 {
        true
    } else {
        let acc2 = acc + (if bs[0].0 > prev_end {
            bs[0].0 - prev_end
        } else {
            0
        });
        &&& acc2 <= usize::MAX
        &&& bs[0].0 + bs[0].1 <= usize::MAX
        &&& gap_walk_fits(bs.drop_first(), bs[0].0 + bs[0].1, acc2)
    }
}

/// The sum of the blocks' sizes.
pub open spec fn size_sum(bs: Seq<(usize, usize)>) -> int
    decreases bs.len(),
{
    if bs.len() == 0 {
        0
    } else {
        size_sum(bs.drop_last()) + bs.last().1
    }
}

/// `i` is the first position of the block `b`.
pub open spec fn first_of(bs: Seq<(usize, usize)>, b: (usize, usize), i: int) -> bool {
    0 <= i < bs.len() && bs[i] == b && forall|q: int| 0 <= q < i ==> bs[q] != b
}

/// Everything but the used count and the blocks is unchanged.
pub open spec fn same_settings(a: MemoryRegion, b: MemoryRegion) -> bool {
    &&& a.id == b.id
    &&& a.name == b.name
    &&& a.region_type == b.region_type
    &&& a.base_addr == b.base_addr
    &&& a.size == b.size
    &&& a.alignment == b.alignment
    &&& a.read_only == b.read_only
}

/// The first-fit outcome of `allocate(size, alignment)` on `reg`, for an
/// alignment that is a power of two.
pub open spec fn region_fit(reg: MemoryRegion, size: usize, alignment: usize) -> Fit {
    first_fit(reg.blocks(), 0, effective_alignment(alignment, reg.alignment) as u64, size, reg.size)
}

/// `allocate(size, alignment)` can run on `reg`: the search stays within
/// `u64` and the address and the used count fit.
pub open spec fn allocation_runs(reg: MemoryRegion, size: usize, alignment: usize) -> bool {
    power_of_two(alignment) ==> {
        &&& region_fit(reg, size, alignment) != Fit::Overflow
        &&& match region_fit(reg, size, alignment) {
            Fit::At(a) => reg.base_addr + a <= u64::MAX && reg.used + size <= usize::MAX,
            _ => true,
        }
    }
}

/// What `allocate(size, alignment)` answers on `reg`.
pub open spec fn allocation_result(reg: MemoryRegion, size: usize, alignment: usize) -> Result<u64, MemoryError> {
    if !power_of_two(alignment) {
        Err(MemoryError::InvalidAlignment(alignment))
    } else {
        match region_fit(reg, size, alignment) {
            Fit::At(a) => Ok((reg.base_addr + a) as u64),
            _ => Err(
                MemoryError::RegionFull {
                    region_id: reg.id,
                    requested: size,
                    available: reg.size.saturating_sub(reg.used),
                },
            ),
        }
    }
}

/// `after` is `before` once `allocate(size, alignment)` has run on it.
pub open spec fn allocated(before: MemoryRegion, after: MemoryRegion, size: usize, alignment: usize) -> bool {
    &&& after.wf()
    &&& same_settings(after, before)
    &&& match (if power_of_two(alignment) { region_fit(before, size, alignment) } else { Fit::Full }) {
        Fit::At(a) => {
            &&& after.blocks() == before.blocks().insert(insert_pos(before.blocks(), a), (a as usize, size))
            &&& after.used == before.used + size
        },
        _ => after.blocks() == before.blocks() && after.used == before.used,
    }
}

/// The blocks a region has handed out.
pub struct BlockList {
    items: Vec<AllocatedBlock>,
}

impl BlockList {
    /// The blocks as (offset, size), in order.
    pub closed spec fn pairs(&self) -> Seq<(usize, usize)> {
        pairs_of(self.items@)
    }
}

/// A region of memory that hands out aligned blocks first-fit.
pub struct MemoryRegion {
    pub id: u64,
    pub name: String,
    pub region_type: MemoryRegionType,
    pub base_addr: u64,
    pub size: usize,
    pub used: usize,
    pub alignment: usize,
    pub read_only: bool,
    pub allocated_blocks: BlockList,
}

fn align_up_exec(addr: u64, al: u64) -> (r: u64)
    requires
        al >= 1,
        addr + al <= u64::MAX,
    ensures
        r == align_up(addr, al),
{
    (addr + al - 1) & !(al - 1)
}

proof fn lemma_insert_sorted(bs: Seq<(usize, usize)>, k: int, x: (usize, usize))
    requires
        offsets_sorted(bs),
        0 <= k <= bs.len(),
        forall|j: int| 0 <= j < k ==> #[trigger] bs[j].0 <= x.0,
        forall|j: int| k <= j < bs.len() ==> #[trigger] bs[j].0 > x.0,
    ensures
        offsets_sorted(bs.insert(k, x)),
{
    let nb = bs.insert(k, x);
    assert forall|i: int, j: int| 0 <= i < j < nb.len() implies #[trigger] nb[i].0 <= #[trigger] nb[j].0 by {
        if j < k {
            assert(nb[i] == bs[i] && nb[j] == bs[j]);
        } else if j == k {
            assert(nb[i] == bs[i]);
        } else if i < k {
            assert(nb[i] == bs[i] && nb[j] == bs[j - 1]);
        } else if i == k {
            assert(nb[j] == bs[j - 1]);
        } else {
            assert(nb[i] == bs[i - 1] && nb[j] == bs[j - 1]);
        }
    }
}

proof fn lemma_remove_sorted(bs: Seq<(usize, usize)>, k: int)
    requires
        offsets_sorted(bs),
        0 <= k < bs.len(),
    ensures
        offsets_sorted(bs.remove(k)),
{
    let nb = bs.remove(k);
    assert forall|x: int, y: int| 0 <= x < y < nb.len() implies #[trigger] nb[x].0 <= #[trigger] nb[y].0 by {
        if y < k {
            assert(nb[x] == bs[x] && nb[y] == bs[y]);
        } else if x < k {
            assert(nb[x] == bs[x] && nb[y] == bs[y + 1]);
        } else {
            assert(nb[x] == bs[x + 1] && nb[y] == bs[y + 1]);
        }
    }
}

/// Puts a block after every block whose offset is at most its own.
fn insert_block(v: &mut Vec<AllocatedBlock>, b: AllocatedBlock)
    requires
        offsets_sorted(pairs_of(old(v)@)),
    ensures
        pairs_of(final(v)@) == pairs_of(old(v)@).insert(insert_pos(pairs_of(old(v)@), b.offset as u64), (b.offset, b.size)),
        offsets_sorted(pairs_of(final(v)@)),
{
    let ghost bs = pairs_of(v@);
    let ghost a = b.offset as u64;
    let mut k: usize = v.len();
    assert(bs.take(k as int) =~= bs);
    while k > 0 && v[k - 1].offset > b.offset
        invariant
            k <= bs.len(),
            bs == pairs_of(v@),
            a == b.offset,
            insert_pos(bs, a) == insert_pos(bs.take(k as int), a),
            forall|j: int| k <= j < bs.len() ==> #[trigger] bs[j].0 > a,
        decreases k,
    {
        assert(bs.take(k as int).drop_last() =~= bs.take(k - 1));
        assert(bs[k - 1].0 == v@[k - 1].offset);
        k -= 1;
    }
    proof {
        if k > 0 {
            assert(bs[k - 1].0 == v@[k - 1].offset);
            assert(bs.take(k as int).last() == bs[k - 1]);
        }
    }
    proof {
        assert forall|j: int| 0 <= j < k implies #[trigger] bs[j].0 <= b.offset by {
            assert(bs[j].0 <= bs[k - 1].0);
        }
        lemma_insert_sorted(bs, k as int, (b.offset, b.size));
    }
    v.insert(k, b);
    assert(pairs_of(v@) =~= bs.insert(k as int, (b.offset, b.size)));
}

impl MemoryRegion {
    /// The handed-out blocks as (offset, size), by offset, earlier blocks
    /// first among equal offsets.
    pub open spec fn blocks(&self) -> Seq<(usize, usize)> {
        self.allocated_blocks.pairs()
    }

    pub open spec fn wf(&self) -> bool {
        offsets_sorted(self.blocks())
    }

    /// An empty region at base 0 with 16-byte alignment; weights are read-only.
    pub fn new(id: u64, name: &str, region_type: MemoryRegionType, size: usize) -> (r: MemoryRegion)
        ensures
            r.wf(),
            r.id == id,
            r.name@ == name@,
            r.region_type == region_type,
            r.base_addr == 0,
            r.size == size,
            r.used == 0,
            r.alignment == 16,
            r.read_only == (region_type == MemoryRegionType::Weights),
            r.blocks().len() == 0,
    {
        let read_only = match region_type {
            MemoryRegionType::Weights => true,
            _ => false,
        };
        let r = MemoryRegion {
            id,
            name: String::from_str(name),
            region_type,
            base_addr: 0,
            size,
            used: 0,
            alignment: 16,
            read_only,
            allocated_blocks: BlockList { items: Vec::new() },
        };
        assert(r.blocks() =~= Seq::<(usize, usize)>::empty());
        r
    }

    /// Hands out `size` bytes at the first gap, by offset, whose start
    /// aligned to the larger of `alignment` and the region's own alignment
    /// leaves room; the address is the region's base plus that start.
    /// `alignment` must be a power of two; the search must stay within
    /// `u64` arithmetic, and the address and the used count must fit.
    pub fn allocate(&mut self, size: usize, alignment: usize) -> (r: Result<u64, MemoryError>)
        requires
            old(self).wf(),
            power_of_two(alignment) ==> first_fit(
                old(self).blocks(),
                0,
                effective_alignment(alignment, old(self).alignment) as u64,
                size,
                old(self).size,
            ) != Fit::Overflow,
            power_of_two(alignment) ==> match first_fit(
                old(self).blocks(),
                0,
                effective_alignment(alignment, old(self).alignment) as u64,
                size,
                old(self).size,
            ) {
                Fit::At(a) => old(self).base_addr + a <= u64::MAX && old(self).used + size <= usize::MAX,
                _ => true,
            },
        ensures
            final(self).wf(),
            same_settings(*final(self), *old(self)),
            r == allocation_result(*old(self), size, alignment),
            allocated(*old(self), *final(self), size, alignment),
            !power_of_two(alignment) ==> r == Err::<u64, MemoryError>(MemoryError::InvalidAlignment(alignment))
                && final(self).blocks() == old(self).blocks() && final(self).used == old(self).used,
            power_of_two(alignment) ==> match first_fit(
                old(self).blocks(),
                0,
                effective_alignment(alignment, old(self).alignment) as u64,
                size,
                old(self).size,
            ) {
                Fit::At(a) => {
                    &&& r == Ok::<u64, MemoryError>((old(self).base_addr + a) as u64)
                    &&& power_of_two(old(self).alignment) ==> a & ((effective_alignment(
                        alignment,
                        old(self).alignment,
                    ) - 1) as u64) == 0
                    &&& (forall|j: int| 0 <= j < old(self).blocks().len() ==> #[trigger] old(self).blocks()[j].0 <= old(
                        self,
                    ).size) ==> a + size <= old(self).size
                    &&& final(self).blocks() == old(self).blocks().insert(
                        insert_pos(old(self).blocks(), a),
                        (a as usize, size),
                    )
                    &&& final(self).used == old(self).used + size
                },
                _ => {
                    &&& r == Err::<u64, MemoryError>(
                        MemoryError::RegionFull {
                            region_id: old(self).id,
                            requested: size,
                            available: old(self).size.saturating_sub(old(self).used),
                        },
                    )
                    &&& final(self).blocks() == old(self).blocks()
                    &&& final(self).used == old(self).used
                },
            },
    {
        if alignment == 0 || (alignment & (alignment - 1)) != 0 {
            return Err(MemoryError::InvalidAlignment(alignment));
        }
        assert(power_of_two(alignment));
        let eff = if alignment >= self.alignment {
            alignment
        } else {
            self.alignment
        };
        let al = eff as u64;
        let ghost bs = self.blocks();
        let ghost fit = first_fit(bs, 0, al, size, self.size);
        proof {
            assert(alignment >= 1);
            assert(bs.skip(0) =~= bs);
            if fit is At {
                let a = fit->At_0;
                law_fit_aligned_in_region(bs, 0, al, size, self.size);
                if power_of_two(self.alignment) {
                    let own = self.alignment;
                    assert(al & ((al - 1) as u64) == 0) by (bit_vector)
                        requires
                            (al == alignment as u64 || al == own as u64),
                            alignment != 0 && alignment & ((alignment - 1) as usize) == 0,
                            own != 0 && own & ((own - 1) as usize) == 0,
                    ;
                }
            }
        }
        let mut cur: u64 = 0;
        let mut i: usize = 0;
        while i < self.allocated_blocks.items.len()
            invariant
                match fit {
                    Fit::At(a) => {
                        &&& power_of_two(old(self).alignment) ==> a & ((al - 1) as u64) == 0
                        &&& (forall|j: int| 0 <= j < bs.len() ==> #[trigger] bs[j].0 <= old(self).size) ==> a + size
                            <= old(self).size
                    },
                    _ => true,
                },
                *self == *old(self),
                bs == self.blocks(),
                offsets_sorted(bs),
                i <= bs.len(),
                al >= 1,
                power_of_two(alignment),
                al == effective_alignment(alignment, old(self).alignment) as u64,
                fit == first_fit(bs, 0, al, size, self.size),
                fit != Fit::Overflow,
                fit == first_fit(bs.skip(i as int), cur, al, size, self.size),
                match fit {
                    Fit::At(a) => self.base_addr + a <= u64::MAX && self.used + size <= usize::MAX,
                    _ => true,
                },
            decreases bs.len() - i,
        {
            let b = self.allocated_blocks.items[i];
            proof {
                assert(bs[i as int] == (b.offset, b.size));
                assert(bs.skip(i as int)[0] == bs[i as int]);
                assert(bs.skip(i as int).drop_first() =~= bs.skip(i + 1));
            }
            let block_end = b.offset as u64 + b.size as u64;
            let aligned = align_up_exec(cur, al);
            if aligned <= b.offset as u64 && b.offset as u64 - aligned >= size as u64 {
                assert(fit == Fit::At(aligned));
                assert((aligned as usize) as u64 == aligned);
                let addr = self.base_addr + aligned;
                insert_block(&mut self.allocated_blocks.items, AllocatedBlock { offset: aligned as usize, size });
                self.used = self.used + size;
                return Ok(addr);
            }
            cur = block_end;
            i += 1;
        }
        proof {
            assert(bs.skip(i as int) =~= Seq::<(usize, usize)>::empty());
        }
        let aligned = align_up_exec(cur, al);
        if aligned <= self.size as u64 && self.size as u64 - aligned >= size as u64 {
            assert(fit == Fit::At(aligned));
            assert((aligned as usize) as u64 == aligned);
            let addr = self.base_addr + aligned;
            insert_block(&mut self.allocated_blocks.items, AllocatedBlock { offset: aligned as usize, size });
            self.used = self.used + size;
            return Ok(addr);
        }
        Err(MemoryError::RegionFull { region_id: self.id, requested: size, available: self.available() })
    }

    /// Returns the first block handed out at `addr` with exactly `size`
    /// bytes; the used count goes down by `size`, stopping at zero.
    pub fn deallocate(&mut self, addr: u64, size: usize) -> (r: Result<(), MemoryError>)
        requires
            old(self).wf(),
            addr >= old(self).base_addr,
        ensures
            final(self).wf(),
            same_settings(*final(self), *old(self)),
            ({
                let b = (((addr - old(self).base_addr) as u64) as usize, size);
                if exists|i: int| 0 <= i < old(self).blocks().len() && old(self).blocks()[i] == b {
                    &&& r is Ok
                    &&& exists|i: int| first_of(old(self).blocks(), b, i) && final(self).blocks() == old(self).blocks().remove(i)
                    &&& final(self).used == old(self).used.saturating_sub(size)
                } else {
                    &&& r is Err && r->Err_0 is DeallocateError
                    &&& r->Err_0->DeallocateError_0@ == "未找到地址 "@ + decimal(addr as nat) + " 处的已分配块"@
                    &&& final(self).blocks() == old(self).blocks()
                    &&& final(self).used == old(self).used
                }
            }),
    {
        let offset = (addr - self.base_addr) as usize;
        let ghost bs = self.blocks();
        let ghost b = (offset, size);
        assert(b == (((addr - old(self).base_addr) as u64) as usize, size));
        let mut i: usize = 0;
        while i < self.allocated_blocks.items.len()
            invariant
                *self == *old(self),
                bs == self.blocks(),
                i <= bs.len(),
                offsets_sorted(bs),
                b == (offset, size),
                b == (((addr - old(self).base_addr) as u64) as usize, size),
                forall|q: int| 0 <= q < i ==> #[trigger] bs[q] != b,
            decreases bs.len() - i,
        {
            let blk = self.allocated_blocks.items[i];
            assert(bs[i as int] == (blk.offset, blk.size));
            if blk.offset == offset && blk.size == size {
                                self.allocated_blocks.items.remove(i);
                proof {
                    assert(first_of(bs, b, i as int));
                    assert(self.blocks() =~= bs.remove(i as int));
                    lemma_remove_sorted(bs, i as int);
                    assert(exists|j: int| 0 <= j < old(self).blocks().len() && old(self).blocks()[j] == b);
                }
                self.used = self.used.saturating_sub(size);
                return Ok(());
            }
            i += 1;
        }
        let mut msg = String::from_str("未找到地址 ");
        push_decimal(&mut msg, addr);
        msg.append(" 处的已分配块");
        Err(MemoryError::DeallocateError(msg))
    }

    /// The bytes left between blocks, in offset order from the region's
    /// start: what its fragmentation is measured by.
    pub fn gap_bytes(&self) -> (r: usize)
        requires
            gap_walk_fits(self.blocks(), 0, 0),
        ensures
            r == gap_sum(self.blocks(), 0),
    {
        let ghost bs = self.blocks();
        let mut total: usize = 0;
        let mut prev_end: usize = 0;
        let mut i: usize = 0;
        assert(bs.skip(0) =~= bs);
        while i < self.allocated_blocks.items.len()
            invariant
                bs == self.blocks(),
                i <= bs.len(),
                gap_walk_fits(bs.skip(i as int), prev_end as int, total as int),
                gap_sum(bs, 0) == total + gap_sum(bs.skip(i as int), prev_end as int),
            decreases bs.len() - i,
        {
            let b = self.allocated_blocks.items[i];
            proof {
                assert(bs[i as int] == (b.offset, b.size));
                assert(bs.skip(i as int)[0] == bs[i as int]);
                assert(bs.skip(i as int).drop_first() =~= bs.skip(i + 1));
            }
            if b.offset > prev_end {
                total = total + (b.offset - prev_end);
            }
            prev_end = b.offset + b.size;
            i += 1;
        }
        assert(bs.skip(i as int) =~= Seq::<(usize, usize)>::empty());
        total
    }

    /// Whether `gap_bytes` can run: walking the blocks, every running gap
    /// total and block end fits in `usize`.
    pub fn gap_walk_in_range(&self) -> (r: bool)
        ensures
            r == gap_walk_fits(self.blocks(), 0, 0),
    {
        let ghost bs = self.blocks();
        let mut total: usize = 0;
        let mut prev_end: usize = 0;
        let mut i: usize = 0;
        assert(bs.skip(0) =~= bs);
        while i < self.allocated_blocks.items.len()
            invariant
                bs == self.blocks(),
                i <= bs.len(),
                gap_walk_fits(bs, 0, 0) == gap_walk_fits(bs.skip(i as int), prev_end as int, total as int),
            decreases bs.len() - i,
        {
            let b = self.allocated_blocks.items[i];
            proof {
                assert(bs[i as int] == (b.offset, b.size));
                assert(bs.skip(i as int)[0] == bs[i as int]);
                assert(bs.skip(i as int).drop_first() =~= bs.skip(i + 1));
            }
            if b.offset > prev_end {
                if total > usize::MAX - (b.offset - prev_end) {
                    return false;
                }
                total = total + (b.offset - prev_end);
            }
            if b.offset > usize::MAX - b.size {
                return false;
            }
            prev_end = b.offset + b.size;
            i += 1;
        }
        assert(bs.skip(i as int) =~= Seq::<(usize, usize)>::empty());
        true
    }

    /// Whether `allocate(size, alignment)` can run: an alignment that is not
    /// a power of two is refused without any search; otherwise the search
    /// must stay within `u64` and the address and used count must fit.
    pub fn allocation_in_range(&self, size: usize, alignment: usize) -> (r: bool)
        requires
            self.wf(),
        ensures
            r == (power_of_two(alignment) ==> {
                let fit = first_fit(
                    self.blocks(),
                    0,
                    effective_alignment(alignment, self.alignment) as u64,
                    size,
                    self.size,
                );
                &&& fit != Fit::Overflow
                &&& match fit {
                    Fit::At(a) => self.base_addr + a <= u64::MAX && self.used + size <= usize::MAX,
                    _ => true,
                }
            }),
    {
        if alignment == 0 || (alignment & (alignment - 1)) != 0 {
            return true;
        }
        assert(power_of_two(alignment));
        let eff = if alignment >= self.alignment {
            alignment
        } else {
            self.alignment
        };
        let al = eff as u64;
        let ghost bs = self.blocks();
        let ghost fit = first_fit(bs, 0, al, size, self.size);
        assert(bs.skip(0) =~= bs);
        let mut cur: u64 = 0;
        let mut i: usize = 0;
        while i < self.allocated_blocks.items.len()
            invariant
                bs == self.blocks(),
                i <= bs.len(),
                al >= 1,
                power_of_two(alignment),
                al == effective_alignment(alignment, self.alignment) as u64,
                fit == first_fit(bs, 0, al, size, self.size),
                fit == first_fit(bs.skip(i as int), cur, al, size, self.size),
            decreases bs.len() - i,
        {
            let b = self.allocated_blocks.items[i];
            proof {
                assert(bs[i as int] == (b.offset, b.size));
                assert(bs.skip(i as int)[0] == bs[i as int]);
                assert(bs.skip(i as int).drop_first() =~= bs.skip(i + 1));
            }
            if b.offset as u64 > u64::MAX - b.size as u64 || cur > u64::MAX - al {
                return false;
            }
            let block_end = b.offset as u64 + b.size as u64;
            let aligned = align_up_exec(cur, al);
            if aligned <= b.offset as u64 && b.offset as u64 - aligned >= size as u64 {
                return aligned <= u64::MAX - self.base_addr && size <= usize::MAX - self.used;
            }
            cur = block_end;
            i += 1;
        }
        assert(bs.skip(i as int) =~= Seq::<(usize, usize)>::empty());
        if cur > u64::MAX - al {
            return false;
        }
        let aligned = align_up_exec(cur, al);
        if aligned <= self.size as u64 && self.size as u64 - aligned >= size as u64 {
            return aligned <= u64::MAX - self.base_addr && size <= usize::MAX - self.used;
        }
        true
    }

    /// Merges all blocks into one at offset 0 whose size is their total, and
    /// counts that total as used (no block remains when it is 0); when the
    /// total does not fit in `usize`, nothing changes and false is returned.
    pub fn merge_blocks(&mut self) -> (r: bool)
        requires
            old(self).wf(),
        ensures
            final(self).wf(),
            same_settings(*final(self), *old(self)),
            r == (size_sum(old(self).blocks()) <= usize::MAX),
            !r ==> final(self).blocks() == old(self).blocks() && final(self).used == old(self).used,
            r ==> final(self).used == size_sum(old(self).blocks()),
            r && size_sum(old(self).blocks()) > 0 ==> final(self).blocks() == seq![(0usize, final(self).used)],
            r && size_sum(old(self).blocks()) == 0 ==> final(self).blocks().len() == 0,
    {
        let ghost bs = self.blocks();
        let mut total: usize = 0;
        let mut i: usize = 0;
        while i < self.allocated_blocks.items.len()
            invariant
                *self == *old(self),
                self.wf(),
                bs == self.blocks(),
                i <= bs.len(),
                total == size_sum(bs.take(i as int)),
            decreases bs.len() - i,
        {
            let b = self.allocated_blocks.items[i];
            proof {
                assert(bs[i as int] == (b.offset, b.size));
                assert(bs.take(i + 1).drop_last() =~= bs.take(i as int));
            }
            if total > usize::MAX - b.size {
                proof {
                    lemma_size_sum_grows(bs, i as int + 1);
                }
                return false;
            }
            total = total + b.size;
            i += 1;
        }
        assert(bs.take(i as int) =~= bs);
        self.allocated_blocks.items.clear();
        self.used = total;
        if total > 0 {
            self.allocated_blocks.items.push(AllocatedBlock { offset: 0, size: total });
        }
        assert(self.blocks() =~= if total > 0 { seq![(0usize, total)] } else { Seq::<(usize, usize)>::empty() });
        true
    }

    /// Whether the blocks' sizes add up within `usize`.
    pub fn blocks_sum_fits(&self) -> (r: bool)
        ensures
            r == (size_sum(self.blocks()) <= usize::MAX),
    {
        let ghost bs = self.blocks();
        let mut total: usize = 0;
        let mut i: usize = 0;
        while i < self.allocated_blocks.items.len()
            invariant
                bs == self.blocks(),
                i <= bs.len(),
                total == size_sum(bs.take(i as int)),
            decreases bs.len() - i,
        {
            let b = self.allocated_blocks.items[i];
            proof {
                assert(bs[i as int] == (b.offset, b.size));
                assert(bs.take(i + 1).drop_last() =~= bs.take(i as int));
            }
            if total > usize::MAX - b.size {
                proof {
                    lemma_size_sum_grows(bs, i as int + 1);
                }
                return false;
            }
            total = total + b.size;
            i += 1;
        }
        assert(bs.take(i as int) =~= bs);
        true
    }

    /// The bytes not in use, stopping at zero.
    pub fn available(&self) -> (r: usize)
        ensures
            r == self.size.saturating_sub(self.used),
    {
        self.size.saturating_sub(self.used)
    }
}


proof fn lemma_size_sum_grows(bs: Seq<(usize, usize)>, i: int)
    requires
        0 <= i <= bs.len(),
    ensures
        size_sum(bs.take(i)) <= size_sum(bs),
    decreases bs.len(),
{
    if i < bs.len() {
        assert(bs.drop_last().take(i) =~= bs.take(i));
        lemma_size_sum_grows(bs.drop_last(), i);
    } else {
        assert(bs.take(i) =~= bs);
    }
}

// ---------------------------------------------------------------------------
// Laws of the first-fit search
// ---------------------------------------------------------------------------

/// Each block ends at or before the start of every later block.
pub open spec fn blocks_apart(bs: Seq<(usize, usize)>) -> bool {
    forall|i: int, j: int| 0 <= i < j < bs.len() ==> #[trigger] bs[i].0 + bs[i].1 <= #[trigger] bs[j].0
}

proof fn lemma_align_up_bounds(x: u64, al: u64)
    requires
        al >= 1,
        x + al <= u64::MAX,
    ensures
        x <= align_up(x, al),
        align_up(x, al) <= x + al - 1,
{
    let m: u64 = (al - 1) as u64;
    let y: u64 = (x + m) as u64;
    assert(y & !m >= y - m) by (bit_vector);
    assert(y & !m <= y) by (bit_vector);
}

/// Rounding up to a power of two lands on a multiple of it (the bits below
/// the alignment are clear), at or after the address and before the next
/// multiple.
pub proof fn law_align_up(x: u64, al: u64)
    requires
        al >= 1,
        al & ((al - 1) as u64) == 0,
        x + al <= u64::MAX,
    ensures
        align_up(x, al) & ((al - 1) as u64) == 0,
        x <= align_up(x, al) < x + al,
{
    lemma_align_up_bounds(x, al);
    let m: u64 = (al - 1) as u64;
    let y: u64 = (x + m) as u64;
    assert((y & !m) & m == 0) by (bit_vector);
}

/// A first fit is aligned, and where every block starts within the region
/// the new block ends within it too.
pub proof fn law_fit_aligned_in_region(bs: Seq<(usize, usize)>, cur: u64, al: u64, size: usize, total: usize)
    requires
        al >= 1,
        first_fit(bs, cur, al, size, total) is At,
    ensures
        al & ((al - 1) as u64) == 0 ==> first_fit(bs, cur, al, size, total)->At_0 & ((al - 1) as u64) == 0,
        (forall|j: int| 0 <= j < bs.len() ==> #[trigger] bs[j].0 <= total) ==> first_fit(bs, cur, al, size, total)->At_0
            + size <= total,
    decreases bs.len(),
{
    lemma_align_up_bounds(cur, al);
    if al & ((al - 1) as u64) == 0 {
        law_align_up(cur, al);
    }
    if bs.len() > 0 {
        let a = align_up(cur, al);
        if !(a <= bs[0].0 && bs[0].0 - a >= size) {
            let rest = bs.drop_first();
            law_fit_aligned_in_region(rest, (bs[0].0 + bs[0].1) as u64, al, size, total);
            if forall|j: int| 0 <= j < bs.len() ==> #[trigger] bs[j].0 <= total {
                assert forall|j: int| 0 <= j < rest.len() implies #[trigger] rest[j].0 <= total by {
                    assert(rest[j] == bs[j + 1]);
                }
            }
        } else {
            assert(bs[0].0 <= total ==> a + size <= total);
        }
    }
}

/// Where an insert position lies: after every block at or before `a`, before
/// every block past it.
proof fn lemma_insert_pos(bs: Seq<(usize, usize)>, a: u64)
    requires
        offsets_sorted(bs),
    ensures
        0 <= insert_pos(bs, a) <= bs.len(),
        forall|j: int| 0 <= j < insert_pos(bs, a) ==> #[trigger] bs[j].0 <= a,
        forall|j: int| insert_pos(bs, a) <= j < bs.len() ==> #[trigger] bs[j].0 > a,
    decreases bs.len(),
{
    if bs.len() > 0 {
        let d = bs.drop_last();
        assert(offsets_sorted(d)) by {
            assert forall|i: int, j: int| 0 <= i < j < d.len() implies #[trigger] d[i].0 <= #[trigger] d[j].0 by {
                assert(d[i] == bs[i] && d[j] == bs[j]);
            }
        }
        lemma_insert_pos(d, a);
        if bs.last().0 <= a {
            assert forall|j: int| 0 <= j < bs.len() implies #[trigger] bs[j].0 <= a by {
                assert(bs[j].0 <= bs[bs.len() - 1].0);
            }
        } else {
            assert forall|j: int| 0 <= j < insert_pos(bs, a) implies #[trigger] bs[j].0 <= a by {
                assert(bs[j] == d[j]);
            }
            assert forall|j: int| insert_pos(bs, a) <= j < bs.len() implies #[trigger] bs[j].0 > a by {
                if j < d.len() {
                    assert(bs[j] == d[j]);
                }
            }
        }
    }
}

/// Where the first fit lands: after the end of every block before some
/// position `k`, and ending before block `k`, or within the region when
/// `k` is past the last block.
proof fn lemma_fit_gap(bs: Seq<(usize, usize)>, cur: u64, al: u64, size: usize, total: usize) -> (k: int)
    requires
        blocks_apart(bs),
        al >= 1,
        bs.len() > 0 ==> cur <= bs[0].0,
        first_fit(bs, cur, al, size, total) is At,
    ensures
        0 <= k <= bs.len(),
        cur <= first_fit(bs, cur, al, size, total)->At_0,
        forall|j: int| 0 <= j < k ==> #[trigger] bs[j].0 + bs[j].1 <= first_fit(bs, cur, al, size, total)->At_0,
        k < bs.len() ==> first_fit(bs, cur, al, size, total)->At_0 + size <= bs[k].0,
        k == bs.len() ==> first_fit(bs, cur, al, size, total)->At_0 + size <= total,
    decreases bs.len(),
{
    lemma_align_up_bounds(cur, al);
    if bs.len() == 0 {
        0
    } else {
        let a = align_up(cur, al);
        if a <= bs[0].0 && bs[0].0 - a >= size {
            0
        } else {
            let rest = bs.drop_first();
            let next = (bs[0].0 + bs[0].1) as u64;
            assert(blocks_apart(rest)) by {
                assert forall|i: int, j: int| 0 <= i < j < rest.len() implies #[trigger] rest[i].0 + rest[i].1
                    <= #[trigger] rest[j].0 by {
                    assert(rest[i] == bs[i + 1] && rest[j] == bs[j + 1]);
                }
            }
            if rest.len() > 0 {
                assert(rest[0] == bs[1]);
            }
            let k1 = lemma_fit_gap(rest, next, al, size, total);
            let b = first_fit(bs, cur, al, size, total)->At_0;
            assert forall|j: int| 0 <= j < k1 + 1 implies #[trigger] bs[j].0 + bs[j].1 <= b by {
                if j > 0 {
                    assert(bs[j] == rest[j - 1]);
                }
            }
            if k1 < rest.len() {
                assert(bs[k1 + 1] == rest[k1]);
            }
            k1 + 1
        }
    }
}

/// A block handed out first-fit keeps every block apart from the others:
/// it starts after the blocks placed before it and ends before the ones
/// placed after it (for a block of at least one byte).
pub proof fn law_allocation_keeps_blocks_apart(bs: Seq<(usize, usize)>, al: u64, size: usize, total: usize)
    requires
        blocks_apart(bs),
        al >= 1,
        size > 0,
        first_fit(bs, 0, al, size, total) is At,
    ensures
        ({
            let a = first_fit(bs, 0, al, size, total)->At_0;
            &&& a + size <= usize::MAX
            &&& blocks_apart(bs.insert(insert_pos(bs, a), (a as usize, size)))
        }),
{
    let a = first_fit(bs, 0, al, size, total)->At_0;
    assert(offsets_sorted(bs)) by {
        assert forall|i: int, j: int| 0 <= i < j < bs.len() implies #[trigger] bs[i].0 <= #[trigger] bs[j].0 by {
            assert(bs[i].0 + bs[i].1 <= bs[j].0);
        }
    }
    let k = lemma_fit_gap(bs, 0, al, size, total);
    lemma_insert_pos(bs, a);
    let p = insert_pos(bs, a);
    assert(p == k) by {
        if p < k {
            assert(bs[p].0 + bs[p].1 <= a);
            assert(bs[p].0 > a);
        }
        if k < p {
            assert(a + size <= bs[k].0);
            assert(bs[k].0 <= a);
        }
    }
    let x = (a as usize, size);
    let nb = bs.insert(k, x);
    assert forall|i: int, j: int| 0 <= i < j < nb.len() implies #[trigger] nb[i].0 + nb[i].1 <= #[trigger] nb[j].0 by {
        if j < k {
            assert(nb[i] == bs[i] && nb[j] == bs[j]);
        } else if j == k {
            assert(nb[i] == bs[i]);
        } else if i < k {
            assert(nb[i] == bs[i] && nb[j] == bs[j - 1]);
            assert(bs[i].0 + bs[i].1 <= bs[j - 1].0);
        } else if i == k {
            assert(nb[j] == bs[j - 1]);
            assert(bs[k].0 <= bs[j - 1].0);
        } else {
            assert(nb[i] == bs[i - 1] && nb[j] == bs[j - 1]);
        }
    }
}

/// Returning a block keeps the others apart.
pub proof fn law_release_keeps_blocks_apart(bs: Seq<(usize, usize)>, i: int)
    requires
        blocks_apart(bs),
        0 <= i < bs.len(),
    ensures
        blocks_apart(bs.remove(i)),
{
    let nb = bs.remove(i);
    assert forall|x: int, y: int| 0 <= x < y < nb.len() implies #[trigger] nb[x].0 + nb[x].1 <= #[trigger] nb[y].0 by {
        if y < i {
            assert(nb[x] == bs[x] && nb[y] == bs[y]);
        } else if x < i {
            assert(nb[x] == bs[x] && nb[y] == bs[y + 1]);
        } else {
            assert(nb[x] == bs[x + 1] && nb[y] == bs[y + 1]);
        }
    }
}

} // verus!
