//! GPU textures and buffers: their sizes, and a manager that creates and
//! destroys them within a memory budget.
use vstd::prelude::*;
use crate::text::text_with_number;
use crate::keyed::{keys_distinct, has_key, key_index, seq_to_map, lemma_entry, lemma_absent, lemma_empty, lemma_push, lemma_remove};
use crate::compositor::render::CompositorError;

verus! {

/// The pixel format of a texture.
#[derive(Debug, Clone, Copy, PartialEq, Eq, Structural)]
pub enum TextureFormat {
    RGBA8,
    BGRA8,
    RGB8,
    R8,
    RG8,
    D16Unorm,
    D32Float,
}

/// Bytes per pixel of a format.
pub open spec fn format_bytes(f: TextureFormat) -> u32 {
    match f {
        TextureFormat::RGBA8 | TextureFormat::BGRA8 => 4,
        TextureFormat::RGB8 => 3,
        TextureFormat::R8 => 1,
        TextureFormat::RG8 => 2,
        TextureFormat::D16Unorm => 2,
        TextureFormat::D32Float => 4,
    }
}

impl TextureFormat {
    /// Bytes per pixel.
    pub fn bytes_per_pixel(&self) -> (r: u32)
        ensures
            r == format_bytes(*self),
            1 <= r <= 4,
    {
        match self {
            TextureFormat::RGBA8 | TextureFormat::BGRA8 => 4,
            TextureFormat::RGB8 => 3,
            TextureFormat::R8 => 1,
            TextureFormat::RG8 => 2,
            TextureFormat::D16Unorm => 2,
            TextureFormat::D32Float => 4,
        }
    }
}

/// How a texture may be used: a set of bits.
#[derive(Debug, Clone, Copy, PartialEq, Eq, Structural)]
pub struct TextureUsage(pub u32);

impl TextureUsage {
    #[allow(non_snake_case)]
    pub fn SAMPLED() -> (r: TextureUsage)
        ensures
            r.0 == 1,
    {
        TextureUsage(1)
    }

    #[allow(non_snake_case)]
    pub fn RENDER_TARGET() -> (r: TextureUsage)
        ensures
            r.0 == 2,
    {
        TextureUsage(2)
    }

    #[allow(non_snake_case)]
    pub fn TRANSFER_SRC() -> (r: TextureUsage)
        ensures
            r.0 == 4,
    {
        TextureUsage(4)
    }

    #[allow(non_snake_case)]
    pub fn TRANSFER_DST() -> (r: TextureUsage)
        ensures
            r.0 == 8,
    {
        TextureUsage(8)
    }

    /// Some bit of `other` is set.
    pub fn contains(&self, other: TextureUsage) -> (r: bool)
        ensures
            r == (self.0 & other.0 != 0),
    {
        (self.0 & other.0) != 0
    }

    /// The bits of both.
    pub fn union(&self, other: TextureUsage) -> (r: TextureUsage)
        ensures
            r.0 == self.0 | other.0,
    {
        TextureUsage(self.0 | other.0)
    }

    pub fn bits(&self) -> (r: u32)
        ensures
            r == self.0,
    {
        self.0
    }

    /// No bit set.
    pub fn is_empty(&self) -> (r: bool)
        ensures
            r == (self.0 == 0),
    {
        self.0 == 0
    }
}

/// What a texture is made with.
#[derive(Debug, Clone, Copy)]
pub struct TextureDescriptor {
    pub width: u32,
    pub height: u32,
    pub format: TextureFormat,
    pub usage: TextureUsage,
    pub mip_levels: u32,
}

pub open spec fn at_least_one(x: int) -> int {
    if x < 1 {
        1
    } else {
        x
    }
}

/// Bytes of `levels` mip levels from a `w` by `h` level down, each level
/// half the size (rounded down) of the one before.
pub open spec fn mip_bytes(w: int, h: int, bpp: int, levels: nat) -> int
    decreases levels,
{
    if levels == 0 {
        0
    } else {
        w * h * bpp + mip_bytes(at_least_one(w) / 2, at_least_one(h) / 2, bpp, (levels - 1) as nat)
    }
}

proof fn lemma_mip_nonneg(w: int, h: int, bpp: int, levels: nat)
    requires
        w >= 0,
        h >= 0,
        bpp >= 0,
    ensures
        mip_bytes(w, h, bpp, levels) >= 0,
    decreases levels,
{
    if levels > 0 {
        assert(w * h * bpp >= 0) by (nonlinear_arith)
            requires
                w >= 0,
                h >= 0,
                bpp >= 0,
        ;
        lemma_mip_nonneg(at_least_one(w) / 2, at_least_one(h) / 2, bpp, (levels - 1) as nat);
    }
}

/// The memory a texture takes.
pub open spec fn texture_bytes(d: TextureDescriptor) -> int {
    mip_bytes(d.width as int, d.height as int, format_bytes(d.format) as int, d.mip_levels as nat)
}

impl TextureDescriptor {
    /// Bytes of all mip levels.
    pub fn memory_size(&self) -> (r: usize)
        requires
            texture_bytes(*self) <= usize::MAX,
        ensures
            r == texture_bytes(*self),
    {
        let bpp = self.format.bytes_per_pixel() as usize;
        let mut total: usize = 0;
        let mut w = self.width as usize;
        let mut h = self.height as usize;
        let mut level: u32 = 0;
        while level < self.mip_levels
            invariant
                level <= self.mip_levels,
                bpp == format_bytes(self.format),
                1 <= bpp <= 4,
                total + mip_bytes(w as int, h as int, bpp as int, (self.mip_levels - level) as nat) == texture_bytes(*self),
                texture_bytes(*self) <= usize::MAX,
                total >= 0,
            decreases self.mip_levels - level,
        {
            let ghost rest = (self.mip_levels - level - 1) as nat;
            proof {
                lemma_mip_nonneg(at_least_one(w as int) / 2, at_least_one(h as int) / 2, bpp as int, rest);
                assert(w * h <= w * h * bpp) by (nonlinear_arith)
                    requires
                        bpp >= 1,
                ;
                assert(w * h * bpp >= 0) by (nonlinear_arith);
            }
            let area = w * h;
            total = total + area * bpp;
            w = if w < 1 { 1 } else { w } / 2;
            h = if h < 1 { 1 } else { h } / 2;
            level = level + 1;
        }
        total
    }
}

/// A texture the manager keeps.
#[derive(Debug, Clone, Copy)]
pub struct Texture {
    pub id: u64,
    pub descriptor: TextureDescriptor,
    pub is_allocated: bool,
}

/// The kind of a buffer.
#[derive(Debug, Clone, Copy, PartialEq, Eq, Structural)]
pub enum BufferType {
    Vertex,
    Index,
    Uniform,
    Storage,
    Staging,
}

/// A buffer the manager keeps.
#[derive(Debug, Clone, Copy)]
pub struct Buffer {
    pub id: u64,
    pub size: usize,
    pub buffer_type: BufferType,
    pub is_allocated: bool,
}

/// Sum of a sequence of sizes.
pub open spec fn total(s: Seq<int>) -> int
    decreases s.len(),
{
    if s.len() == 0 {
        0
    } else {
        total(s.drop_last()) + s.last()
    }
}

proof fn lemma_total_push(s: Seq<int>, x: int)
    ensures
        total(s.push(x)) == total(s) + x,
{
    assert(s.push(x).drop_last() =~= s);
}

proof fn lemma_total_remove(s: Seq<int>, i: int)
    requires
        0 <= i < s.len(),
    ensures
        total(s.remove(i)) == total(s) - s[i],
    decreases s.len(),
{
    if i == s.len() - 1 {
        assert(s.remove(i) =~= s.drop_last());
    } else {
        lemma_total_remove(s.drop_last(), i);
        assert(s.remove(i).drop_last() =~= s.drop_last().remove(i));
        assert(s.remove(i).last() == s.last());
    }
}

proof fn lemma_total_nonneg(s: Seq<int>)
    requires
        forall|i: int| 0 <= i < s.len() ==> #[trigger] s[i] >= 0,
    ensures
        total(s) >= 0,
        forall|i: int| 0 <= i < s.len() ==> #[trigger] s[i] <= total(s),
    decreases s.len(),
{
    if s.len() > 0 {
        lemma_total_nonneg(s.drop_last());
        assert forall|i: int| 0 <= i < s.len() implies #[trigger] s[i] <= total(s) by {
            if i < s.len() - 1 {
                assert(s.drop_last()[i] == s[i]);
            }
        }
    }
}

/// Textures by id.
pub open spec fn texture_entries(v: Seq<Texture>) -> Seq<(u64, Texture)> {
    v.map_values(|t: Texture| (t.id, t))
}

/// Buffers by id.
pub open spec fn buffer_entries(v: Seq<Buffer>) -> Seq<(u64, Buffer)> {
    v.map_values(|b: Buffer| (b.id, b))
}

pub open spec fn texture_sizes(v: Seq<Texture>) -> Seq<int> {
    v.map_values(|t: Texture| texture_bytes(t.descriptor))
}

pub open spec fn buffer_sizes(v: Seq<Buffer>) -> Seq<int> {
    v.map_values(|b: Buffer| b.size as int)
}

/// Creates and destroys textures and buffers, and keeps count of the
/// memory they take.
pub struct GpuResourceManager {
    textures: Vec<Texture>,
    buffers: Vec<Buffer>,
    next_texture_id: u64,
    next_buffer_id: u64,
    total_texture_memory: usize,
    total_buffer_memory: usize,
    max_memory: usize,
}

impl GpuResourceManager {
    /// The textures, by id.
    pub closed spec fn texture_map(&self) -> Map<u64, Texture> {
        seq_to_map(texture_entries(self.textures@))
    }

    /// The buffers, by id.
    pub closed spec fn buffer_map(&self) -> Map<u64, Buffer> {
        seq_to_map(buffer_entries(self.buffers@))
    }

    /// The id the next texture gets.
    pub closed spec fn next_texture(&self) -> u64 {
        self.next_texture_id
    }

    /// The id the next buffer gets.
    pub closed spec fn next_buffer(&self) -> u64 {
        self.next_buffer_id
    }

    /// The memory budget; 0 is no limit.
    pub closed spec fn budget(&self) -> usize {
        self.max_memory
    }

    /// Bytes that textures take.
    pub closed spec fn texture_memory(&self) -> int {
        self.total_texture_memory as int
    }

    /// Bytes that buffers take.
    pub closed spec fn buffer_memory(&self) -> int {
        self.total_buffer_memory as int
    }

    /// Bytes in use.
    pub open spec fn usage(&self) -> int {
        self.texture_memory() + self.buffer_memory()
    }

    /// Ids are distinct and below the next ones; the memory counts are the
    /// sums of what the textures and buffers take; the use fits in a
    /// machine word.
    pub closed spec fn wf(&self) -> bool {
        &&& keys_distinct(texture_entries(self.textures@))
        &&& keys_distinct(buffer_entries(self.buffers@))
        &&& forall|i: int| 0 <= i < self.textures@.len() ==> 1 <= (#[trigger] self.textures@[i]).id < self.next_texture_id
        &&& forall|i: int| 0 <= i < self.buffers@.len() ==> 1 <= (#[trigger] self.buffers@[i]).id < self.next_buffer_id
        &&& self.next_texture_id >= 1
        &&& self.next_buffer_id >= 1
        &&& self.total_texture_memory == total(texture_sizes(self.textures@))
        &&& self.total_buffer_memory == total(buffer_sizes(self.buffers@))
        &&& self.total_texture_memory + self.total_buffer_memory <= usize::MAX
        &&& forall|i: int| 0 <= i < self.textures@.len() ==> texture_bytes(#[trigger] self.textures@[i].descriptor) >= 0
    }

    /// Every texture id and every buffer id is at least 1 and below the
    /// id the next one of its kind gets, so that next id is not taken;
    /// there are finitely many of each.
    pub proof fn lemma_ids_below_next(&self)
        requires
            self.wf(),
        ensures
            forall|id: u64| #[trigger] self.texture_map().dom().contains(id) ==> 1 <= id < self.next_texture(),
            forall|id: u64| #[trigger] self.buffer_map().dom().contains(id) ==> 1 <= id < self.next_buffer(),
            !self.texture_map().dom().contains(self.next_texture()),
            !self.buffer_map().dom().contains(self.next_buffer()),
            self.texture_map().dom().finite(),
            self.buffer_map().dom().finite(),
    {
        let ts = texture_entries(self.textures@);
        let bs = buffer_entries(self.buffers@);
        crate::keyed::lemma_len(ts);
        crate::keyed::lemma_len(bs);
        assert forall|id: u64| #[trigger] self.texture_map().dom().contains(id) implies 1 <= id
            < self.next_texture() by {
            let i = key_index(ts, id);
            assert(ts[i].0 == self.textures@[i].id);
        }
        assert forall|id: u64| #[trigger] self.buffer_map().dom().contains(id) implies 1 <= id
            < self.next_buffer() by {
            let i = key_index(bs, id);
            assert(bs[i].0 == self.buffers@[i].id);
        }
    }

    /// The memory a kept texture takes fits its count.
    pub proof fn lemma_texture_bytes(&self, id: u64)
        requires
            self.wf(),
            self.texture_map().dom().contains(id),
        ensures
            0 <= texture_bytes(self.texture_map()[id].descriptor) <= self.texture_memory(),
    {
        let s = texture_entries(self.textures@);
        let i = key_index(s, id);
        lemma_entry(s, i);
        let sz = texture_sizes(self.textures@);
        assert forall|j: int| 0 <= j < sz.len() implies #[trigger] sz[j] >= 0 by {
            assert(sz[j] == texture_bytes(self.textures@[j].descriptor));
        }
        lemma_total_nonneg(sz);
        assert(sz[i] == texture_bytes(self.textures@[i].descriptor));
    }

    /// No textures and no buffers; ids start at 1.
    pub fn new(max_memory: usize) -> (r: GpuResourceManager)
        ensures
            r.wf(),
            r.texture_map() == Map::<u64, Texture>::empty(),
            r.buffer_map() == Map::<u64, Buffer>::empty(),
            r.next_texture() == 1,
            r.next_buffer() == 1,
            r.budget() == max_memory,
            r.texture_memory() == 0,
            r.buffer_memory() == 0,
    {
        let r = GpuResourceManager {
            textures: Vec::new(),
            buffers: Vec::new(),
            next_texture_id: 1,
            next_buffer_id: 1,
            total_texture_memory: 0,
            total_buffer_memory: 0,
            max_memory,
        };
        proof {
            lemma_empty::<u64, Texture>();
            lemma_empty::<u64, Buffer>();
            assert(texture_entries(r.textures@) =~= Seq::<(u64, Texture)>::empty());
            assert(buffer_entries(r.buffers@) =~= Seq::<(u64, Buffer)>::empty());
            assert(texture_sizes(r.textures@) =~= Seq::<int>::empty());
            assert(buffer_sizes(r.buffers@) =~= Seq::<int>::empty());
        }
        r
    }

    /// Creates a texture, unless it would take the use past the budget.
    pub fn create_texture(&mut self, desc: TextureDescriptor) -> (r: Result<u64, CompositorError>)
        requires
            old(self).wf(),
            old(self).next_texture() < u64::MAX,
            old(self).usage() + texture_bytes(desc) <= usize::MAX,
        ensures
            final(self).wf(),
            final(self).buffer_map() == old(self).buffer_map(),
            final(self).budget() == old(self).budget(),
            final(self).next_buffer() == old(self).next_buffer(),
            final(self).buffer_memory() == old(self).buffer_memory(),
            if old(self).budget() > 0 && old(self).usage() + texture_bytes(desc) > old(self).budget() {
                &&& r == Err::<u64, CompositorError>(CompositorError::OutOfMemory)
                &&& final(self).texture_map() == old(self).texture_map()
                &&& final(self).next_texture() == old(self).next_texture()
                &&& final(self).texture_memory() == old(self).texture_memory()
            } else {
                &&& r == Ok::<u64, CompositorError>(old(self).next_texture())
                &&& final(self).texture_map() == old(self).texture_map().insert(
                    old(self).next_texture(),
                    Texture { id: old(self).next_texture(), descriptor: desc, is_allocated: true },
                )
                &&& final(self).next_texture() == old(self).next_texture() + 1
                &&& final(self).texture_memory() == old(self).texture_memory() + texture_bytes(desc)
            },
    {
        proof {
            lemma_mip_nonneg(desc.width as int, desc.height as int, format_bytes(desc.format) as int, desc.mip_levels as nat);
        }
        let mem_size = desc.memory_size();
        if self.max_memory > 0 && self.total_texture_memory + self.total_buffer_memory + mem_size > self.max_memory {
            return Err(CompositorError::OutOfMemory);
        }
        let id = self.next_texture_id;
        self.next_texture_id = id + 1;
        let t = Texture { id, descriptor: desc, is_allocated: true };
        let ghost s = self.textures@;
        self.total_texture_memory = self.total_texture_memory + mem_size;
        self.textures.push(t);
        proof {
            let es = texture_entries(s);
            assert forall|i: int| 0 <= i < es.len() implies #[trigger] es[i].0 != id by {
                assert(es[i].0 == s[i].id);
            }
            lemma_absent(es, id);
            lemma_push(es, id, t);
            assert(texture_entries(self.textures@) =~= es.push((id, t)));
            lemma_total_push(texture_sizes(s), texture_bytes(desc));
            assert(texture_sizes(self.textures@) =~= texture_sizes(s).push(texture_bytes(desc)));
        }
        Ok(id)
    }

    /// Destroys a texture.
    pub fn destroy_texture(&mut self, id: u64) -> (r: Result<(), CompositorError>)
        requires
            old(self).wf(),
        ensures
            final(self).wf(),
            final(self).buffer_map() == old(self).buffer_map(),
            final(self).budget() == old(self).budget(),
            final(self).next_buffer() == old(self).next_buffer(),
            final(self).next_texture() == old(self).next_texture(),
            final(self).buffer_memory() == old(self).buffer_memory(),
            if old(self).texture_map().dom().contains(id) {
                &&& r is Ok
                &&& final(self).texture_map() == old(self).texture_map().remove(id)
                &&& final(self).texture_memory() == old(self).texture_memory() - texture_bytes(
                    old(self).texture_map()[id].descriptor,
                )
            } else {
                &&& r is Err
                &&& r->Err_0 is InvalidConfig
                &&& r->Err_0->InvalidConfig_0@ == "纹理 ID 不存在: "@ + crate::text::decimal(id as nat)
                &&& final(self).texture_map() == old(self).texture_map()
                &&& final(self).texture_memory() == old(self).texture_memory()
            },
    {
        let ghost s = self.textures@;
        let ghost es = texture_entries(s);
        let mut i: usize = 0;
        while i < self.textures.len() && self.textures[i].id != id
            invariant
                i <= self.textures@.len(),
                s == self.textures@,
                es == texture_entries(s),
                forall|k: int| 0 <= k < i ==> #[trigger] s[k].id != id,
            decreases self.textures@.len() - i,
        {
            i += 1;
        }
        if i == self.textures.len() {
            proof {
                assert forall|k: int| 0 <= k < es.len() implies #[trigger] es[k].0 != id by {
                    assert(es[k].0 == s[k].id);
                }
                lemma_absent(es, id);
            }
            return Err(CompositorError::InvalidConfig(text_with_number("纹理 ID 不存在: ", id)));
        }
        proof {
            assert(es[i as int].0 == id);
            lemma_entry(es, i as int);
            self.lemma_texture_bytes(id);
        }
        let t = self.textures.remove(i);
        let size = t.descriptor.memory_size();
        self.total_texture_memory = self.total_texture_memory - size;
        proof {
            lemma_remove(es, i as int);
            assert(texture_entries(self.textures@) =~= es.remove(i as int));
            lemma_total_remove(texture_sizes(s), i as int);
            assert(texture_sizes(self.textures@) =~= texture_sizes(s).remove(i as int));
            assert forall|k: int| 0 <= k < self.textures@.len() implies 1 <= (#[trigger] self.textures@[k]).id
                < self.next_texture_id by {
                let k2 = if k < i { k } else { k + 1 };
                assert(self.textures@[k] == s[k2]);
            }
            assert forall|k: int| 0 <= k < self.textures@.len() implies texture_bytes(
                #[trigger] self.textures@[k].descriptor,
            ) >= 0 by {
                let k2 = if k < i { k } else { k + 1 };
                assert(self.textures@[k] == s[k2]);
            }
        }
        Ok(())
    }

    /// The texture with the given id.
    pub fn get_texture(&self, id: u64) -> (r: Option<&Texture>)
        requires
            self.wf(),
        ensures
            match r {
                Some(t) => self.texture_map().dom().contains(id) && self.texture_map()[id] == *t,
                None => !self.texture_map().dom().contains(id),
            },
    {
        let ghost es = texture_entries(self.textures@);
        let mut i: usize = 0;
        while i < self.textures.len()
            invariant
                i <= self.textures@.len(),
                es == texture_entries(self.textures@),
                keys_distinct(es),
                forall|k: int| 0 <= k < i ==> #[trigger] self.textures@[k].id != id,
            decreases self.textures@.len() - i,
        {
            if self.textures[i].id == id {
                proof {
                    lemma_entry(es, i as int);
                }
                return Some(&self.textures[i]);
            }
            i += 1;
        }
        proof {
            assert forall|k: int| 0 <= k < es.len() implies #[trigger] es[k].0 != id by {
                assert(es[k].0 == self.textures@[k].id);
            }
            lemma_absent(es, id);
        }
        None
    }

    /// Creates a buffer, unless it would take the use past the budget.
    pub fn create_buffer(&mut self, size: usize, buffer_type: BufferType) -> (r: Result<u64, CompositorError>)
        requires
            old(self).wf(),
            old(self).next_buffer() < u64::MAX,
            old(self).usage() + size <= usize::MAX,
        ensures
            final(self).wf(),
            final(self).texture_map() == old(self).texture_map(),
            final(self).budget() == old(self).budget(),
            final(self).next_texture() == old(self).next_texture(),
            final(self).texture_memory() == old(self).texture_memory(),
            if old(self).budget() > 0 && old(self).usage() + size > old(self).budget() {
                &&& r == Err::<u64, CompositorError>(CompositorError::OutOfMemory)
                &&& final(self).buffer_map() == old(self).buffer_map()
                &&& final(self).next_buffer() == old(self).next_buffer()
                &&& final(self).buffer_memory() == old(self).buffer_memory()
            } else {
                &&& r == Ok::<u64, CompositorError>(old(self).next_buffer())
                &&& final(self).buffer_map() == old(self).buffer_map().insert(
                    old(self).next_buffer(),
                    Buffer { id: old(self).next_buffer(), size, buffer_type, is_allocated: true },
                )
                &&& final(self).next_buffer() == old(self).next_buffer() + 1
                &&& final(self).buffer_memory() == old(self).buffer_memory() + size
            },
    {
        if self.max_memory > 0 && self.total_texture_memory + self.total_buffer_memory + size > self.max_memory {
            return Err(CompositorError::OutOfMemory);
        }
        let id = self.next_buffer_id;
        self.next_buffer_id = id + 1;
        let b = Buffer { id, size, buffer_type, is_allocated: true };
        let ghost s = self.buffers@;
        self.total_buffer_memory = self.total_buffer_memory + size;
        self.buffers.push(b);
        proof {
            let es = buffer_entries(s);
            assert forall|i: int| 0 <= i < es.len() implies #[trigger] es[i].0 != id by {
                assert(es[i].0 == s[i].id);
            }
            lemma_absent(es, id);
            lemma_push(es, id, b);
            assert(buffer_entries(self.buffers@) =~= es.push((id, b)));
            lemma_total_push(buffer_sizes(s), size as int);
            assert(buffer_sizes(self.buffers@) =~= buffer_sizes(s).push(size as int));
        }
        Ok(id)
    }

    /// Destroys a buffer.
    pub fn destroy_buffer(&mut self, id: u64) -> (r: Result<(), CompositorError>)
        requires
            old(self).wf(),
        ensures
            final(self).wf(),
            final(self).texture_map() == old(self).texture_map(),
            final(self).budget() == old(self).budget(),
            final(self).next_buffer() == old(self).next_buffer(),
            final(self).next_texture() == old(self).next_texture(),
            final(self).texture_memory() == old(self).texture_memory(),
            if old(self).buffer_map().dom().contains(id) {
                &&& r is Ok
                &&& final(self).buffer_map() == old(self).buffer_map().remove(id)
                &&& final(self).buffer_memory() == old(self).buffer_memory() - old(self).buffer_map()[id].size
            } else {
                &&& r is Err
                &&& r->Err_0 is InvalidConfig
                &&& r->Err_0->InvalidConfig_0@ == "缓冲区 ID 不存在: "@ + crate::text::decimal(id as nat)
                &&& final(self).buffer_map() == old(self).buffer_map()
                &&& final(self).buffer_memory() == old(self).buffer_memory()
            },
    {
        let ghost s = self.buffers@;
        let ghost es = buffer_entries(s);
        let mut i: usize = 0;
        while i < self.buffers.len() && self.buffers[i].id != id
            invariant
                i <= self.buffers@.len(),
                s == self.buffers@,
                es == buffer_entries(s),
                forall|k: int| 0 <= k < i ==> #[trigger] s[k].id != id,
            decreases self.buffers@.len() - i,
        {
            i += 1;
        }
        if i == self.buffers.len() {
            proof {
                assert forall|k: int| 0 <= k < es.len() implies #[trigger] es[k].0 != id by {
                    assert(es[k].0 == s[k].id);
                }
                lemma_absent(es, id);
            }
            return Err(CompositorError::InvalidConfig(text_with_number("缓冲区 ID 不存在: ", id)));
        }
        proof {
            assert(es[i as int].0 == id);
            lemma_entry(es, i as int);
            let sz = buffer_sizes(s);
            assert forall|j: int| 0 <= j < sz.len() implies #[trigger] sz[j] >= 0 by {
                assert(sz[j] == s[j].size);
            }
            lemma_total_nonneg(sz);
            assert(sz[i as int] == s[i as int].size);
        }
        let b = self.buffers.remove(i);
        self.total_buffer_memory = self.total_buffer_memory - b.size;
        proof {
            lemma_remove(es, i as int);
            assert(buffer_entries(self.buffers@) =~= es.remove(i as int));
            lemma_total_remove(buffer_sizes(s), i as int);
            assert(buffer_sizes(self.buffers@) =~= buffer_sizes(s).remove(i as int));
            assert forall|k: int| 0 <= k < self.buffers@.len() implies 1 <= (#[trigger] self.buffers@[k]).id
                < self.next_buffer_id by {
                let k2 = if k < i { k } else { k + 1 };
                assert(self.buffers@[k] == s[k2]);
            }
        }
        Ok(())
    }

    /// The buffer with the given id.
    pub fn get_buffer(&self, id: u64) -> (r: Option<&Buffer>)
        requires
            self.wf(),
        ensures
            match r {
                Some(b) => self.buffer_map().dom().contains(id) && self.buffer_map()[id] == *b,
                None => !self.buffer_map().dom().contains(id),
            },
    {
        let ghost es = buffer_entries(self.buffers@);
        let mut i: usize = 0;
        while i < self.buffers.len()
            invariant
                i <= self.buffers@.len(),
                es == buffer_entries(self.buffers@),
                keys_distinct(es),
                forall|k: int| 0 <= k < i ==> #[trigger] self.buffers@[k].id != id,
            decreases self.buffers@.len() - i,
        {
            if self.buffers[i].id == id {
                proof {
                    lemma_entry(es, i as int);
                }
                return Some(&self.buffers[i]);
            }
            i += 1;
        }
        proof {
            assert forall|k: int| 0 <= k < es.len() implies #[trigger] es[k].0 != id by {
                assert(es[k].0 == self.buffers@[k].id);
            }
            lemma_absent(es, id);
        }
        None
    }

    /// Bytes in use.
    pub fn memory_usage(&self) -> (r: usize)
        requires
            self.wf(),
        ensures
            r == self.usage(),
    {
        self.total_texture_memory + self.total_buffer_memory
    }

    /// Bytes left under the budget; with no budget, the largest size.
    pub fn memory_available(&self) -> (r: usize)
        requires
            self.wf(),
        ensures
            self.budget() == 0 ==> r == usize::MAX,
            self.budget() > 0 ==> r == if self.usage() >= self.budget() {
                0
            } else {
                self.budget() - self.usage()
            },
    {
        if self.max_memory == 0 {
            return usize::MAX;
        }
        self.max_memory.saturating_sub(self.memory_usage())
    }

    /// Number of textures.
    pub fn texture_count(&self) -> (r: usize)
        requires
            self.wf(),
        ensures
            r == self.texture_map().dom().len(),
    {
        proof {
            crate::keyed::lemma_len(texture_entries(self.textures@));
        }
        self.textures.len()
    }

    /// Number of buffers.
    pub fn buffer_count(&self) -> (r: usize)
        requires
            self.wf(),
        ensures
            r == self.buffer_map().dom().len(),
    {
        proof {
            crate::keyed::lemma_len(buffer_entries(self.buffers@));
        }
        self.buffers.len()
    }
}

/// Creating a texture and destroying it again leaves the manager's textures,
/// their number and its memory use as they were.
pub proof fn law_create_destroy_texture(
    m0: GpuResourceManager,
    m1: GpuResourceManager,
    m2: GpuResourceManager,
    desc: TextureDescriptor,
)
    requires
        m0.wf(),
        m1.texture_map() == m0.texture_map().insert(
            m0.next_texture(),
            Texture { id: m0.next_texture(), descriptor: desc, is_allocated: true },
        ),
        m1.texture_memory() == m0.texture_memory() + texture_bytes(desc),
        m2.texture_map() == m1.texture_map().remove(m0.next_texture()),
        m2.texture_memory() == m1.texture_memory() - texture_bytes(m1.texture_map()[m0.next_texture()].descriptor),
    ensures
        m1.texture_map().dom().len() == m0.texture_map().dom().len() + 1,
        m2.texture_map() == m0.texture_map(),
        m2.texture_map().dom().len() == m0.texture_map().dom().len(),
        m2.texture_memory() == m0.texture_memory(),
        !m2.texture_map().dom().contains(m0.next_texture()),
{
    m0.lemma_ids_below_next();
    assert(m2.texture_map() =~= m0.texture_map());
}

} // verus!
