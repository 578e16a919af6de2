//! A pool of memory regions under one capacity, and the byte sizes of the
//! tensors registered in it by name.
use vstd::prelude::*;
use crate::keyed::{keys_distinct, has_key, key_index, key_seq, seq_to_map, lemma_entry, lemma_empty, lemma_push, lemma_remove};
use crate::text::{str_equal, texts};
use super::{
    MemoryError, MemoryRegion, MemoryRegionType, allocation_runs, allocation_result, allocated, same_settings,
    size_sum,
};

verus! {

/// The regions as (id, region) entries.
pub open spec fn region_entries(rs: Seq<MemoryRegion>) -> Seq<(u64, MemoryRegion)> {
    rs.map_values(|r: MemoryRegion| (r.id, r))
}

/// The sum of the regions' sizes.
pub open spec fn region_size_sum(rs: Seq<MemoryRegion>) -> int
    decreases rs.len(),
{
    if rs.len() == 0 {
        0
    } else {
        region_size_sum(rs.drop_last()) + rs.last().size
    }
}

/// A region as `MemoryRegion::new` makes it.
pub open spec fn fresh_region(r: MemoryRegion, id: u64, name: Seq<char>, region_type: MemoryRegionType, size: usize) -> bool {
    &&& r.wf()
    &&& r.id == id
    &&& r.name@ == name
    &&& r.region_type == region_type
    &&& r.base_addr == 0
    &&& r.size == size
    &&& r.used == 0
    &&& r.alignment == 16
    &&& r.read_only == (region_type == MemoryRegionType::Weights)
    &&& r.blocks().len() == 0
}

/// `after` is `before` with its blocks merged into one at offset 0.
pub open spec fn merged(before: MemoryRegion, after: MemoryRegion) -> bool {
    let total = size_sum(before.blocks());
    &&& after.wf()
    &&& same_settings(after, before)
    &&& after.used == total
    &&& after.blocks() == (if total > 0 {
        seq![(0usize, after.used)]
    } else {
        Seq::<(usize, usize)>::empty()
    })
}

/// Memory regions under one capacity, each with its own id, and the byte
/// sizes of the tensors registered by name.
pub struct MemoryPool {
    regions: Vec<MemoryRegion>,
    tensors: Vec<(String, usize)>,
    total_capacity: usize,
    total_used: usize,
    next_region_id: u64,
}

fn region_at(v: &mut Vec<MemoryRegion>, i: usize) -> (r: &mut MemoryRegion)
    requires
        i < old(v)@.len(),
    ensures
        *r == old(v)@[i as int],
        final(v)@ == old(v)@.update(i as int, *final(r)),
{
    &mut v[i]
}

proof fn lemma_region_sum_prefix(rs: Seq<MemoryRegion>, i: int)
    requires
        0 <= i <= rs.len(),
    ensures
        region_size_sum(rs.take(i)) <= region_size_sum(rs),
    decreases rs.len(),
{
    if i < rs.len() {
        assert(rs.drop_last().take(i) =~= rs.take(i));
        lemma_region_sum_prefix(rs.drop_last(), i);
    } else {
        assert(rs.take(i) =~= rs);
    }
}

proof fn lemma_region_sum_remove(rs: Seq<MemoryRegion>, k: int)
    requires
        0 <= k < rs.len(),
    ensures
        region_size_sum(rs.remove(k)) == region_size_sum(rs) - rs[k].size,
    decreases rs.len(),
{
    if k == rs.len() - 1 {
        assert(rs.remove(k) =~= rs.drop_last());
    } else {
        assert(rs.remove(k).drop_last() =~= rs.drop_last().remove(k));
        assert(rs.remove(k).last() == rs.last());
        lemma_region_sum_remove(rs.drop_last(), k);
    }
}

proof fn lemma_region_sum_same_sizes(a: Seq<MemoryRegion>, b: Seq<MemoryRegion>)
    requires
        a.len() == b.len(),
        forall|i: int| 0 <= i < a.len() ==> #[trigger] a[i].size == b[i].size,
    ensures
        region_size_sum(a) == region_size_sum(b),
    decreases a.len(),
{
    if a.len() > 0 {
        lemma_region_sum_same_sizes(a.drop_last(), b.drop_last());
        assert(a.last().size == b[b.len() - 1].size);
    }
}

impl MemoryPool {
    /// The regions, oldest first.
    pub closed spec fn region_seq(&self) -> Seq<MemoryRegion> {
        self.regions@
    }

    /// The registered tensors as (name, byte size), oldest first.
    pub closed spec fn tensor_entries(&self) -> Seq<(Seq<char>, usize)> {
        self.tensors@.map_values(|t: (String, usize)| (t.0@, t.1))
    }

    /// The registered tensors' byte sizes by name.
    pub open spec fn tensor_sizes(&self) -> Map<Seq<char>, usize> {
        seq_to_map(self.tensor_entries())
    }

    /// The regions by id.
    pub open spec fn region_map(&self) -> Map<u64, MemoryRegion> {
        seq_to_map(region_entries(self.region_seq()))
    }

    pub closed spec fn capacity(&self) -> usize {
        self.total_capacity
    }

    pub closed spec fn used(&self) -> usize {
        self.total_used
    }

    /// The id the next region will get.
    pub closed spec fn next_id(&self) -> u64 {
        self.next_region_id
    }

    /// Region ids are distinct and below the next id, each region is well
    /// formed, tensor names are distinct, and the regions' sizes together
    /// stay within the capacity.
    pub open spec fn wf(&self) -> bool {
        &&& keys_distinct(region_entries(self.region_seq()))
        &&& forall|i: int|
            0 <= i < self.region_seq().len() ==> (#[trigger] self.region_seq()[i]).wf()
                && self.region_seq()[i].id < self.next_id()
        &&& keys_distinct(self.tensor_entries())
        &&& region_size_sum(self.region_seq()) <= self.capacity()
    }

    /// An empty pool of the given capacity; region ids start at 1.
    pub fn new(total_capacity: usize) -> (r: MemoryPool)
        ensures
            r.wf(),
            r.region_seq() == Seq::<MemoryRegion>::empty(),
            r.tensor_entries() == Seq::<(Seq<char>, usize)>::empty(),
            r.capacity() == total_capacity,
            r.used() == 0,
            r.next_id() == 1,
    {
        let r = MemoryPool {
            regions: Vec::new(),
            tensors: Vec::new(),
            total_capacity,
            total_used: 0,
            next_region_id: 1,
        };
        assert(r.tensor_entries() =~= Seq::<(Seq<char>, usize)>::empty());
        assert(region_entries(r.region_seq()) =~= Seq::<(u64, MemoryRegion)>::empty());
        r
    }

    /// The capacity the pool was made with.
    pub fn total_capacity(&self) -> (r: usize)
        ensures
            r == self.capacity(),
    {
        self.total_capacity
    }

    /// The bytes of the registered tensors, as counted at registration and
    /// release.
    pub fn total_used(&self) -> (r: usize)
        ensures
            r == self.used(),
    {
        self.total_used
    }

    /// The id the next region will get.
    pub fn next_region_id(&self) -> (r: u64)
        ensures
            r == self.next_id(),
    {
        self.next_region_id
    }

    /// How many regions there are.
    pub fn region_count(&self) -> (r: usize)
        ensures
            r == self.region_seq().len(),
    {
        self.regions.len()
    }

    /// How many tensors are registered.
    pub fn tensor_count(&self) -> (r: usize)
        ensures
            r == self.tensor_entries().len(),
    {
        self.tensors.len()
    }

    /// The region with the given id.
    pub fn get_region(&self, region_id: u64) -> (r: Option<&MemoryRegion>)
        requires
            self.wf(),
        ensures
            match r {
                Some(reg) => self.region_map().dom().contains(region_id) && *reg == self.region_map()[region_id],
                None => !self.region_map().dom().contains(region_id),
            },
    {
        match self.find_region(region_id) {
            Some(k) => {
                proof {
                    lemma_entry(region_entries(self.region_seq()), k as int);
                }
                Some(&self.regions[k])
            },
            None => None,
        }
    }

    fn find_region(&self, region_id: u64) -> (r: Option<usize>)
        requires
            self.wf(),
        ensures
            match r {
                Some(k) => {
                    &&& k < self.region_seq().len()
                    &&& self.region_seq()[k as int].id == region_id
                    &&& has_key(region_entries(self.region_seq()), region_id)
                    &&& key_index(region_entries(self.region_seq()), region_id) == k
                },
                None => !has_key(region_entries(self.region_seq()), region_id),
            },
    {
        let ghost es = region_entries(self.region_seq());
        let mut i: usize = 0;
        while i < self.regions.len()
            invariant
                es == region_entries(self.regions@),
                keys_distinct(es),
                i <= self.regions@.len(),
                forall|q: int| 0 <= q < i ==> #[trigger] es[q].0 != region_id,
            decreases self.regions@.len() - i,
        {
            if self.regions[i].id == region_id {
                proof {
                    assert(es[i as int].0 == region_id);
                    lemma_entry(es, i as int);
                }
                return Some(i);
            }
            assert(es[i as int].0 != region_id);
            i += 1;
        }
        None
    }

    fn find_tensor(&self, name: &str) -> (r: Option<usize>)
        requires
            self.wf(),
        ensures
            match r {
                Some(k) => {
                    &&& k < self.tensor_entries().len()
                    &&& self.tensor_entries()[k as int].0 == name@
                    &&& has_key(self.tensor_entries(), name@)
                    &&& key_index(self.tensor_entries(), name@) == k
                },
                None => !has_key(self.tensor_entries(), name@),
            },
    {
        let ghost es = self.tensor_entries();
        let mut i: usize = 0;
        while i < self.tensors.len()
            invariant
                es == self.tensors@.map_values(|t: (String, usize)| (t.0@, t.1)),
                keys_distinct(es),
                i <= self.tensors@.len(),
                forall|q: int| 0 <= q < i ==> #[trigger] es[q].0 != name@,
            decreases self.tensors@.len() - i,
        {
            if str_equal(self.tensors[i].0.as_str(), name) {
                proof {
                    assert(es[i as int].0 == name@);
                    lemma_entry(es, i as int);
                }
                return Some(i);
            }
            assert(es[i as int].0 != name@);
            i += 1;
        }
        None
    }

    fn region_sizes_total(&self) -> (r: usize)
        requires
            self.wf(),
        ensures
            r == region_size_sum(self.region_seq()),
    {
        let ghost rs = self.region_seq();
        let mut total: usize = 0;
        let mut i: usize = 0;
        while i < self.regions.len()
            invariant
                rs == self.regions@,
                i <= rs.len(),
                total == region_size_sum(rs.take(i as int)),
                region_size_sum(rs) <= usize::MAX,
            decreases rs.len() - i,
        {
            proof {
                assert(rs.take(i + 1).drop_last() =~= rs.take(i as int));
                lemma_region_sum_prefix(rs, i + 1);
            }
            total = total + self.regions[i].size;
            i += 1;
        }
        assert(rs.take(i as int) =~= rs);
        total
    }

    /// Adds an empty region of `size` bytes under the next id, unless the
    /// regions' sizes with it would pass the capacity.
    pub fn create_region(&mut self, name: &str, region_type: MemoryRegionType, size: usize) -> (r: Result<
        u64,
        MemoryError,
    >)
        requires
            old(self).wf(),
            old(self).next_id() < u64::MAX,
        ensures
            final(self).wf(),
            final(self).capacity() == old(self).capacity(),
            final(self).used() == old(self).used(),
            final(self).tensor_entries() == old(self).tensor_entries(),
            region_size_sum(old(self).region_seq()) + size > old(self).capacity() ==> {
                &&& r == Err::<u64, MemoryError>(
                    MemoryError::OutOfMemory {
                        requested: size,
                        available: (old(self).capacity() - region_size_sum(old(self).region_seq())) as usize,
                    },
                )
                &&& final(self).region_seq() == old(self).region_seq()
                &&& final(self).next_id() == old(self).next_id()
            },
            region_size_sum(old(self).region_seq()) + size <= old(self).capacity() ==> {
                &&& r == Ok::<u64, MemoryError>(old(self).next_id())
                &&& final(self).next_id() == old(self).next_id() + 1
                &&& final(self).region_seq().len() == old(self).region_seq().len() + 1
                &&& final(self).region_seq().drop_last() == old(self).region_seq()
                &&& fresh_region(final(self).region_seq().last(), old(self).next_id(), name@, region_type, size)
            },
    {
        let current = self.region_sizes_total();
        if size > self.total_capacity - current {
            return Err(MemoryError::OutOfMemory { requested: size, available: self.total_capacity - current });
        }
        let id = self.next_region_id;
        self.next_region_id = self.next_region_id + 1;
        let region = MemoryRegion::new(id, name, region_type, size);
        let ghost old_rs = self.regions@;
        self.regions.push(region);
        proof {
            let rs = self.regions@;
            assert(rs.drop_last() =~= old_rs);
            assert forall|i: int| 0 <= i < rs.len() implies (#[trigger] rs[i]).wf() && rs[i].id < self.next_region_id by {
                if i < old_rs.len() {
                    assert(rs[i] == old_rs[i]);
                }
            }
            let es = region_entries(rs);
            let oes = region_entries(old_rs);
            assert(es =~= oes.push((id, region)));
            assert forall|q: int| 0 <= q < oes.len() implies #[trigger] oes[q].0 != id by {
                assert(old_rs[q].id < id);
            }
            crate::keyed::lemma_absent(oes, id);
            lemma_push(oes, id, region);
        }
        Ok(id)
    }

    /// Drops the region with the given id.
    pub fn remove_region(&mut self, region_id: u64) -> (r: Result<(), MemoryError>)
        requires
            old(self).wf(),
        ensures
            final(self).wf(),
            final(self).capacity() == old(self).capacity(),
            final(self).used() == old(self).used(),
            final(self).next_id() == old(self).next_id(),
            final(self).tensor_entries() == old(self).tensor_entries(),
            old(self).region_map().dom().contains(region_id) ==> {
                &&& r == Ok::<(), MemoryError>(())
                &&& final(self).region_seq() == old(self).region_seq().remove(
                    key_index(region_entries(old(self).region_seq()), region_id),
                )
                &&& final(self).region_map() == old(self).region_map().remove(region_id)
            },
            !old(self).region_map().dom().contains(region_id) ==> {
                &&& r == Err::<(), MemoryError>(MemoryError::RegionNotFound(region_id))
                &&& final(self).region_seq() == old(self).region_seq()
            },
    {
        match self.find_region(region_id) {
            Some(k) => {
                let ghost old_rs = self.regions@;
                self.regions.remove(k);
                proof {
                    let rs = self.regions@;
                    assert(rs =~= old_rs.remove(k as int));
                    assert(region_entries(rs) =~= region_entries(old_rs).remove(k as int));
                    lemma_remove(region_entries(old_rs), k as int);
                    lemma_region_sum_remove(old_rs, k as int);
                    assert forall|i: int| 0 <= i < rs.len() implies (#[trigger] rs[i]).wf() && rs[i].id
                        < self.next_region_id by {
                        if i < k {
                            assert(rs[i] == old_rs[i]);
                        } else {
                            assert(rs[i] == old_rs[i + 1]);
                        }
                    }
                }
                Ok(())
            },
            None => Err(MemoryError::RegionNotFound(region_id)),
        }
    }

    /// Places `data_size` bytes for a tensor named `name` in the region
    /// `region_id` (16-byte aligned) and records the tensor.
    pub fn register_tensor(&mut self, name: &str, data_size: usize, region_id: u64) -> (r: Result<(), MemoryError>)
        requires
            old(self).wf(),
            old(self).region_map().dom().contains(region_id) ==> allocation_runs(
                old(self).region_map()[region_id],
                data_size,
                16,
            ),
            old(self).used() + data_size <= usize::MAX,
        ensures
            final(self).wf(),
            final(self).capacity() == old(self).capacity(),
            final(self).next_id() == old(self).next_id(),
            !old(self).region_map().dom().contains(region_id) ==> {
                &&& r == Err::<(), MemoryError>(MemoryError::RegionNotFound(region_id))
                &&& final(self).region_seq() == old(self).region_seq()
                &&& final(self).tensor_entries() == old(self).tensor_entries()
                &&& final(self).used() == old(self).used()
            },
            old(self).region_map().dom().contains(region_id) && old(self).tensor_sizes().dom().contains(name@) ==> {
                &&& r matches Err(MemoryError::TensorAlreadyExists(s)) && s@ == name@
                &&& final(self).region_seq() == old(self).region_seq()
                &&& final(self).tensor_entries() == old(self).tensor_entries()
                &&& final(self).used() == old(self).used()
            },
            old(self).region_map().dom().contains(region_id) && !old(self).tensor_sizes().dom().contains(name@) ==> {
                let k = key_index(region_entries(old(self).region_seq()), region_id);
                let before = old(self).region_seq()[k];
                let after = final(self).region_seq()[k];
                &&& final(self).region_seq() == old(self).region_seq().update(k, after)
                &&& allocated(before, after, data_size, 16)
                &&& r == match allocation_result(before, data_size, 16) {
                    Ok(_) => Ok::<(), MemoryError>(()),
                    Err(e) => Err(e),
                }
                &&& r is Ok ==> final(self).tensor_entries() == old(self).tensor_entries().push((name@, data_size))
                    && final(self).tensor_sizes() == old(self).tensor_sizes().insert(name@, data_size)
                    && final(self).used() == old(self).used() + data_size
                &&& r is Err ==> final(self).tensor_entries() == old(self).tensor_entries() && final(self).used()
                    == old(self).used()
            },
    {
        let k = match self.find_region(region_id) {
            Some(k) => k,
            None => {
                return Err(MemoryError::RegionNotFound(region_id));
            },
        };
        proof {
            lemma_entry(region_entries(self.region_seq()), k as int);
        }
        match self.find_tensor(name) {
            Some(_) => {
                return Err(MemoryError::TensorAlreadyExists(String::from_str(name)));
            },
            None => {},
        }
        let ghost old_rs = self.regions@;
        let ghost before = old_rs[k as int];
        let region = region_at(&mut self.regions, k);
        let res = region.allocate(data_size, 16);
        proof {
            let rs = self.regions@;
            let es = region_entries(rs);
            let oes = region_entries(old_rs);
            assert(es =~= oes.update(k as int, (region_id, rs[k as int])));
            assert(keys_distinct(es)) by {
                assert forall|a: int, b: int| 0 <= a < es.len() && 0 <= b < es.len() && a != b implies #[trigger] es[a].0
                    != #[trigger] es[b].0 by {
                    assert(es[a].0 == oes[a].0 && es[b].0 == oes[b].0);
                }
            }
            assert forall|i: int| 0 <= i < rs.len() implies (#[trigger] rs[i]).wf() && rs[i].id < self.next_region_id by {
                if i != k {
                    assert(rs[i] == old_rs[i]);
                }
            }
            lemma_region_sum_same_sizes(rs, old_rs);
        }
        match res {
            Ok(_) => {},
            Err(e) => {
                return Err(e);
            },
        }
        self.total_used = self.total_used + data_size;
        let ghost old_ts = self.tensor_entries();
        self.tensors.push((String::from_str(name), data_size));
        proof {
            assert(self.tensor_entries() =~= old_ts.push((name@, data_size)));
            crate::keyed::lemma_absent(old_ts, name@);
            lemma_push(old_ts, name@, data_size);
        }
        Ok(())
    }

    /// Forgets the tensor named `name`; the used count goes down by its
    /// size, stopping at zero. Its bytes stay placed in their region.
    pub fn release_tensor(&mut self, name: &str) -> (r: Result<(), MemoryError>)
        requires
            old(self).wf(),
        ensures
            final(self).wf(),
            final(self).capacity() == old(self).capacity(),
            final(self).next_id() == old(self).next_id(),
            final(self).region_seq() == old(self).region_seq(),
            old(self).tensor_sizes().dom().contains(name@) ==> {
                &&& r == Ok::<(), MemoryError>(())
                &&& final(self).tensor_entries() == old(self).tensor_entries().remove(
                    key_index(old(self).tensor_entries(), name@),
                )
                &&& final(self).tensor_sizes() == old(self).tensor_sizes().remove(name@)
                &&& final(self).used() == old(self).used().saturating_sub(old(self).tensor_sizes()[name@])
            },
            !old(self).tensor_sizes().dom().contains(name@) ==> {
                &&& r matches Err(MemoryError::TensorNotFound(s)) && s@ == name@
                &&& final(self).tensor_entries() == old(self).tensor_entries()
                &&& final(self).used() == old(self).used()
            },
    {
        match self.find_tensor(name) {
            Some(k) => {
                let ghost old_ts = self.tensor_entries();
                proof {
                    lemma_entry(old_ts, k as int);
                }
                let (_, size) = self.tensors.remove(k);
                self.total_used = self.total_used.saturating_sub(size);
                proof {
                    assert(self.tensor_entries() =~= old_ts.remove(k as int));
                    lemma_remove(old_ts, k as int);
                }
                Ok(())
            },
            None => Err(MemoryError::TensorNotFound(String::from_str(name))),
        }
    }

    /// Whether a tensor of that name is registered.
    pub fn has_tensor(&self, name: &str) -> (r: bool)
        requires
            self.wf(),
        ensures
            r == self.tensor_sizes().dom().contains(name@),
    {
        self.find_tensor(name).is_some()
    }

    /// The registered tensors' names, oldest first.
    pub fn list_tensors(&self) -> (r: Vec<String>)
        ensures
            texts(r@) == key_seq(self.tensor_entries()),
    {
        let mut r: Vec<String> = Vec::new();
        let mut i: usize = 0;
        while i < self.tensors.len()
            invariant
                i <= self.tensors@.len(),
                texts(r@) == key_seq(self.tensor_entries()).take(i as int),
            decreases self.tensors@.len() - i,
        {
            let ghost before = r@;
            r.push(self.tensors[i].0.clone());
            proof {
                assert(texts(r@) =~= texts(before).push(self.tensors@[i as int].0@));
                assert(key_seq(self.tensor_entries()).take(i + 1) =~= key_seq(self.tensor_entries()).take(
                    i as int,
                ).push(self.tensors@[i as int].0@));
            }
            i += 1;
        }
        assert(key_seq(self.tensor_entries()).take(i as int) =~= key_seq(self.tensor_entries()));
        r
    }

    /// Every region's blocks merge without their sizes' sum leaving `usize`.
    pub open spec fn compactable(&self) -> bool {
        forall|i: int| 0 <= i < self.region_seq().len() ==> size_sum((#[trigger] self.region_seq()[i]).blocks()) <= usize::MAX
    }

    /// Whether `compact` can run.
    pub fn can_compact(&self) -> (r: bool)
        ensures
            r == self.compactable(),
    {
        let mut i: usize = 0;
        while i < self.regions.len()
            invariant
                i <= self.regions@.len(),
                forall|q: int| 0 <= q < i ==> size_sum((#[trigger] self.regions@[q]).blocks()) <= usize::MAX,
            decreases self.regions@.len() - i,
        {
            if !self.regions[i].blocks_sum_fits() {
                assert(!(size_sum(self.region_seq()[i as int].blocks()) <= usize::MAX));
                return false;
            }
            i += 1;
        }
        true
    }

    /// In every region, replaces the blocks by one block at offset 0 as
    /// large as they were together (none when that is zero), and sets the
    /// used count to that size.
    pub fn compact(&mut self) -> (r: Result<(), MemoryError>)
        requires
            old(self).wf(),
            old(self).compactable(),
        ensures
            r == Ok::<(), MemoryError>(()),
            final(self).wf(),
            final(self).capacity() == old(self).capacity(),
            final(self).used() == old(self).used(),
            final(self).next_id() == old(self).next_id(),
            final(self).tensor_entries() == old(self).tensor_entries(),
            final(self).region_seq().len() == old(self).region_seq().len(),
            forall|i: int|
                0 <= i < old(self).region_seq().len() ==> merged(
                    old(self).region_seq()[i],
                    #[trigger] final(self).region_seq()[i],
                ),
    {
        let ghost old_rs = self.regions@;
        let mut i: usize = 0;
        while i < self.regions.len()
            invariant
                self.regions@.len() == old_rs.len(),
                old_rs == old(self).regions@,
                self.tensors == old(self).tensors,
                self.total_capacity == old(self).total_capacity,
                self.total_used == old(self).total_used,
                self.next_region_id == old(self).next_region_id,
                forall|q: int| 0 <= q < old_rs.len() ==> (#[trigger] old_rs[q]).id < self.next_region_id,
                keys_distinct(region_entries(old_rs)),
                region_size_sum(old_rs) <= self.total_capacity,
                i <= old_rs.len(),
                forall|q: int| 0 <= q < old_rs.len() ==> size_sum((#[trigger] old_rs[q]).blocks()) <= usize::MAX,
                forall|q: int| 0 <= q < old_rs.len() ==> (#[trigger] old_rs[q]).wf(),
                forall|q: int| 0 <= q < i ==> merged(old_rs[q], #[trigger] self.regions@[q]),
                forall|q: int| i <= q < old_rs.len() ==> #[trigger] self.regions@[q] == old_rs[q],
            decreases old_rs.len() - i,
        {
            let ghost before = self.regions@;
            let region = region_at(&mut self.regions, i);
            let ok = region.merge_blocks();
            proof {
                assert(ok);
                assert(before[i as int] == old_rs[i as int]);
                let a = self.regions@[i as int];
                let b = old_rs[i as int];
                assert(a.wf());
                assert(same_settings(a, b));
                assert(a.used == size_sum(b.blocks()));
                assert(size_sum(b.blocks()) > 0 ==> a.blocks() == seq![(0usize, a.used)]);
                assert(size_sum(b.blocks()) == 0 ==> a.blocks() =~= Seq::<(usize, usize)>::empty());
                assert(merged(old_rs[i as int], self.regions@[i as int]));
                assert forall|q: int| 0 <= q < i + 1 implies merged(old_rs[q], #[trigger] self.regions@[q]) by {
                    if q < i {
                        assert(self.regions@[q] == before[q]);
                    }
                }
                assert forall|q: int| i + 1 <= q < old_rs.len() implies #[trigger] self.regions@[q] == old_rs[q] by {
                    assert(self.regions@[q] == before[q]);
                }
            }
            i += 1;
        }
        proof {
            let rs = self.regions@;
            let es = region_entries(rs);
            let oes = region_entries(old_rs);
            assert forall|q: int| 0 <= q < rs.len() implies #[trigger] es[q].0 == oes[q].0 by {
                assert(merged(old_rs[q], rs[q]));
            }
            assert(keys_distinct(es)) by {
                assert forall|a: int, b: int| 0 <= a < es.len() && 0 <= b < es.len() && a != b implies #[trigger] es[a].0
                    != #[trigger] es[b].0 by {
                    assert(es[a].0 == oes[a].0 && es[b].0 == oes[b].0);
                }
            }
            assert forall|q: int| 0 <= q < rs.len() implies (#[trigger] rs[q]).wf() && rs[q].id < self.next_region_id by {
                assert(merged(old_rs[q], rs[q]));
            }
            assert forall|q: int| 0 <= q < rs.len() implies #[trigger] rs[q].size == old_rs[q].size by {
                assert(merged(old_rs[q], rs[q]));
            }
            lemma_region_sum_same_sizes(rs, old_rs);
        }
        Ok(())
    }
}

/// Registering a tensor under a name not yet taken and then releasing it
/// gives back the sizes by name and the used count as they were.
pub proof fn law_register_release(sizes: Map<Seq<char>, usize>, used: usize, name: Seq<char>, size: usize)
    requires
        !sizes.dom().contains(name),
        used + size <= usize::MAX,
    ensures
        sizes.insert(name, size).remove(name) == sizes,
        ((used + size) as usize).saturating_sub(sizes.insert(name, size)[name]) == used,
{
    assert(sizes.insert(name, size).remove(name) =~= sizes);
}

} // verus!
