//! An in-memory virtual file system: an inode table, open-file table and
//! path resolution from a root directory.
use vstd::prelude::*;
use crate::text::{text_with_number, text_with_text, text_around_number, quoted_with, str_equal, decimal};
use crate::fs::types::{DirEntry, FileAttr, FileDescriptor, FilePermissions, FileType, FsError, FsErrorKind, FsStats, FsType, INode, OpenFile, OpenFlags, SeekFrom, copy_entry, error_kind, FsFault, error_is, error_text, inode_missing, parent_missing};
use crate::fs::path::{components, path_components, exceeds_name_limit, split_parent, splits, parent_part, name_part, trim_leading, text_bytes, split_error};
use crate::text::texts;
use crate::fs::model::{EntryModel, InodeModel, entries_model, table_model, table_get, table_store, table_remove, table_modify, new_inode, has_child, first_child, lemma_first_child, walk, resolve, splice, fd_get, inode_in_use, count_some, total_data, slot_model};

verus! {

/// An operation's result agrees with the model's: the same value, or an
/// error of the same kind with the same text.
pub open spec fn agrees<T>(r: Result<T, FsError>, s: Result<T, FsFault>) -> bool {
    match s {
        Ok(v) => r == Ok::<T, FsError>(v),
        Err(k) => r is Err && error_is(r->Err_0, k),
    }
}

pub open spec fn is_directory(t: FileType) -> bool {
    t == FileType::Directory
}

/// The name a creation or removal path ends in.
pub open spec fn final_name(p: Seq<char>) -> Seq<char> {
    name_part(trim_leading(p))
}

/// The directory that would hold the path's final name.
pub open spec fn parent_check(t: Seq<Option<InodeModel>>, root: u64, p: Seq<char>) -> Result<u64, FsFault> {
    if !splits(p) {
        Err((FsErrorKind::InvalidPath, split_error(p)))
    } else {
        resolve(t, root, parent_part(trim_leading(p)))
    }
}

/// Where a new file or directory would go: its parent directory, which must
/// exist, be a directory and not yet hold the name.
pub open spec fn create_check(t: Seq<Option<InodeModel>>, root: u64, p: Seq<char>) -> Result<u64, FsFault> {
    match parent_check(t, root, p) {
        Err(k) => Err(k),
        Ok(pid) => match table_get(t, pid) {
            None => Err((FsErrorKind::NotFound, parent_missing(pid))),
            Some(pn) => if !is_directory(pn.file_type) {
                Err((FsErrorKind::NotADirectory, "父路径不是目录"@))
            } else if has_child(pn.children, final_name(p)) {
                Err((FsErrorKind::AlreadyExists, final_name(p) + " 已存在"@))
            } else {
                Ok(pid)
            },
        },
    }
}

/// The table after creating inode `id` named `name` under `pid`.
pub open spec fn created_table(
    t: Seq<Option<InodeModel>>,
    pid: u64,
    id: u64,
    name: Seq<char>,
    ft: FileType,
    perms: FilePermissions,
) -> Seq<Option<InodeModel>> {
    table_modify(
        table_store(t, id, new_inode(id, ft, perms, Some(pid))),
        pid,
        |m: InodeModel|
            InodeModel {
                children: m.children.push(EntryModel { name: name, file_type: ft, inode: id }),
                ..m
            },
    )
}

pub open spec fn truncated(m: InodeModel) -> InodeModel {
    InodeModel { data: Seq::empty(), size: 0, ..m }
}

pub open spec fn touched(m: InodeModel) -> InodeModel {
    InodeModel { accessed_at: 0, ..m }
}

pub open spec fn flags_writable(flags: OpenFlags) -> bool {
    flags.0 & 2 != 0 || flags.0 & 4 != 0
}

/// What opening a path does before a descriptor is handed out: the inode to
/// open, the table after truncation or creation, and the next inode number.
pub open spec fn open_target(
    t: Seq<Option<InodeModel>>,
    root: u64,
    ni: u64,
    p: Seq<char>,
    flags: OpenFlags,
) -> Result<(u64, Seq<Option<InodeModel>>, u64), FsFault> {
    match resolve(t, root, p) {
        Ok(id) => match table_get(t, id) {
            None => Err((FsErrorKind::NotFound, inode_missing(id))),
            Some(n) => if is_directory(n.file_type) && flags.0 & 64 == 0 {
                Err((FsErrorKind::IsADirectory, p))
            } else if flags.0 & 16 != 0 && flags_writable(flags) {
                Ok((id, table_modify(t, id, |m: InodeModel| truncated(m)), ni))
            } else {
                Ok((id, t, ni))
            },
        },
        Err(k) => if k.0 == FsErrorKind::NotFound {
            if flags.0 & 8 != 0 {
                match create_check(t, root, p) {
                    Err(k2) => Err(k2),
                    Ok(pid) => Ok(
                        (
                            ni,
                            created_table(
                                t,
                                pid,
                                ni,
                                final_name(p),
                                FileType::Regular,
                                FilePermissions(0o644),
                            ),
                            (ni + 1) as u64,
                        ),
                    ),
                }
            } else {
                Err((FsErrorKind::NotFound, p))
            }
        } else {
            Err(k)
        },
    }
}

/// The entry a removal path names: its parent and position there.
pub open spec fn removal_target(t: Seq<Option<InodeModel>>, root: u64, p: Seq<char>) -> Result<(u64, int), FsFault> {
    match parent_check(t, root, p) {
        Err(k) => Err(k),
        Ok(pid) => match table_get(t, pid) {
            None => Err((FsErrorKind::NotFound, parent_missing(pid))),
            Some(pn) => if !has_child(pn.children, final_name(p)) {
                Err((FsErrorKind::NotFound, "'"@ + final_name(p) + "'"@ + " 未找到"@))
            } else {
                Ok((pid, first_child(pn.children, final_name(p))))
            },
        },
    }
}

/// The table after removing inode `target` and entry `idx` of `pid`.
pub open spec fn removed_table(t: Seq<Option<InodeModel>>, pid: u64, idx: int, target: u64) -> Seq<
    Option<InodeModel>,
> {
    table_modify(
        table_remove(t, target),
        pid,
        |m: InodeModel| InodeModel { children: m.children.remove(idx), ..m },
    )
}

/// The offset a write starts at.
pub open spec fn write_start(of: OpenFile, n: InodeModel) -> int {
    if of.flags.0 & 4 != 0 {
        n.data.len() as int
    } else {
        (of.offset as usize) as int
    }
}

/// A write of `len` bytes through `fd` stays within the address range.
pub open spec fn write_fits(f: Seq<Option<OpenFile>>, t: Seq<Option<InodeModel>>, fd: u32, len: nat) -> bool {
    match fd_get(f, fd) {
        Some(of) => match table_get(t, of.inode_id) {
            Some(n) => write_start(of, n) + len <= usize::MAX,
            None => true,
        },
        None => true,
    }
}

/// The offset a seek asks for, as a signed number.
pub open spec fn seek_target(of: OpenFile, size: nat, pos: SeekFrom) -> int {
    match pos {
        SeekFrom::Start(o) => (o as i64) as int,
        SeekFrom::Current(d) => (of.offset as i64) + d,
        SeekFrom::End(d) => ((size as usize) as i64) + d,
    }
}

/// A seek through `fd` computes its target without signed overflow.
pub open spec fn seek_fits(f: Seq<Option<OpenFile>>, t: Seq<Option<InodeModel>>, fd: u32, pos: SeekFrom) -> bool {
    match fd_get(f, fd) {
        Some(of) => match table_get(t, of.inode_id) {
            Some(n) => i64::MIN <= seek_target(of, n.data.len(), pos) <= i64::MAX,
            None => true,
        },
        None => true,
    }
}

/// The open file and inode a read goes to, or why it cannot.
pub open spec fn read_check(f: Seq<Option<OpenFile>>, t: Seq<Option<InodeModel>>, fd: u32) -> Result<
    (OpenFile, InodeModel),
    FsFault,
> {
    match fd_get(f, fd) {
        None => Err((FsErrorKind::NotOpen, decimal(fd as nat))),
        Some(of) => if !of.is_readable {
            Err((FsErrorKind::PermissionDenied, "文件不可读"@))
        } else {
            match table_get(t, of.inode_id) {
                None => Err((FsErrorKind::NotFound, inode_missing(of.inode_id))),
                Some(n) => if is_directory(n.file_type) {
                    Err((FsErrorKind::IsADirectory, "不能读取目录"@))
                } else {
                    Ok((of, n))
                },
            }
        },
    }
}

/// The open file and inode a write goes to, or why it cannot.
pub open spec fn write_check(f: Seq<Option<OpenFile>>, t: Seq<Option<InodeModel>>, fd: u32) -> Result<
    (OpenFile, InodeModel),
    FsFault,
> {
    match fd_get(f, fd) {
        None => Err((FsErrorKind::NotOpen, decimal(fd as nat))),
        Some(of) => if !of.is_writable {
            Err((FsErrorKind::PermissionDenied, "文件不可写"@))
        } else {
            match table_get(t, of.inode_id) {
                None => Err((FsErrorKind::NotFound, inode_missing(of.inode_id))),
                Some(n) => if is_directory(n.file_type) {
                    Err((FsErrorKind::IsADirectory, "不能写入目录"@))
                } else {
                    Ok((of, n))
                },
            }
        },
    }
}

/// How many bytes a read into a buffer of `buflen` bytes takes, when its
/// start lies inside the file.
pub open spec fn read_count(of: OpenFile, n: InodeModel, buflen: nat) -> int {
    if of.offset + buflen <= n.data.len() {
        buflen as int
    } else {
        n.data.len() - of.offset
    }
}

/// The table after a write of `buf` at `off` into inode `id`.
pub open spec fn written_table(t: Seq<Option<InodeModel>>, id: u64, off: int, buf: Seq<u8>) -> Seq<
    Option<InodeModel>,
> {
    table_modify(
        t,
        id,
        |m: InodeModel|
            {
                let d = splice(m.data, off, buf);
                InodeModel { data: d, size: d.len() as u64, modified_at: 0, ..m }
            },
    )
}

/// The file attributes reported for an inode.
pub open spec fn attr_of(n: InodeModel) -> FileAttr {
    FileAttr {
        file_type: n.file_type,
        size: n.size,
        permissions: n.permissions,
        created_at: n.created_at,
        modified_at: n.modified_at,
        accessed_at: n.accessed_at,
        uid: 0,
        gid: 0,
        nlinks: 1,
    }
}

/// An in-memory virtual file system.
pub struct VirtualFileSystem {
    inodes: Vec<Option<INode>>,
    root_inode: u64,
    open_files: Vec<Option<OpenFile>>,
    next_fd: u32,
    next_inode: u64,
    fs_type: FsType,
}

fn is_dir(t: FileType) -> (r: bool)
    ensures
        r == is_directory(t),
{
    match t {
        FileType::Directory => true,
        _ => false,
    }
}

/// The first entry with the given name.
fn find_child(children: &Vec<DirEntry>, name: &str) -> (r: Option<usize>)
    ensures
        match r {
            Some(j) => j < children@.len() && has_child(entries_model(children@), name@) && j
                == first_child(entries_model(children@), name@),
            None => !has_child(entries_model(children@), name@),
        },
{
    let ghost es = entries_model(children@);
    let mut j: usize = 0;
    while j < children.len()
        invariant
            j <= children@.len(),
            es == entries_model(children@),
            forall|k: int| 0 <= k < j ==> #[trigger] es[k].name != name@,
        decreases children@.len() - j,
    {
        if str_equal(children[j].name.as_str(), name) {
            proof {
                lemma_first_child(es, name@, j as int);
            }
            return Some(j);
        }
        j += 1;
    }
    proof {
        if has_child(es, name@) {
            let k = choose|k: int| 0 <= k < es.len() && #[trigger] es[k].name == name@;
            assert(es[k].name != name@);
        }
    }
    None
}

/// A copy of a list of directory entries.
fn copy_entries(v: &Vec<DirEntry>) -> (r: Vec<DirEntry>)
    ensures
        entries_model(r@) == entries_model(v@),
{
    let mut r: Vec<DirEntry> = Vec::new();
    let mut i: usize = 0;
    while i < v.len()
        invariant
            i <= v@.len(),
            entries_model(r@) == entries_model(v@.take(i as int)),
        decreases v@.len() - i,
    {
        let e = copy_entry(&v[i]);
        let ghost prev = r@;
        assert(e@ == v@[i as int]@);
        r.push(e);
        assert(entries_model(r@) =~= entries_model(prev).push(e@));
        assert(entries_model(v@.take(i + 1)) =~= entries_model(v@.take(i as int)).push(v@[i as int]@));
        i += 1;
    }
    assert(v@.take(i as int) =~= v@);
    r
}

impl VirtualFileSystem {
    /// The inode table: slot `i` holds inode number `i`, if present.
    pub closed spec fn table(&self) -> Seq<Option<InodeModel>> {
        table_model(self.inodes@)
    }

    /// The open-file table: slot `i` holds descriptor `i`, if open.
    pub closed spec fn fds(&self) -> Seq<Option<OpenFile>> {
        self.open_files@
    }

    pub closed spec fn spec_next_inode(&self) -> u64 {
        self.next_inode
    }

    pub closed spec fn spec_next_fd(&self) -> u32 {
        self.next_fd
    }

    pub closed spec fn root(&self) -> u64 {
        self.root_inode
    }

    pub closed spec fn kind(&self) -> FsType {
        self.fs_type
    }

    /// New inode numbers never go past the end of the table, and the
    /// descriptor table has one slot per descriptor handed out.
    pub closed spec fn wf(&self) -> bool {
        &&& self.next_inode <= self.inodes@.len()
        &&& self.open_files@.len() == self.next_fd
    }

    proof fn lemma_table_len(&self)
        ensures
            self.table().len() == self.inodes@.len(),
            forall|i: int|
                0 <= i < self.inodes@.len() ==> #[trigger] self.table()[i] == slot_model(
                    self.inodes@[i],
                ),
    {
    }

    /// An empty file system (without a root directory).
    pub fn new(fs_type: FsType) -> (r: VirtualFileSystem)
        ensures
            r.wf(),
            r.table().len() == 0,
            r.fds().len() == 0,
            r.spec_next_inode() == 0,
            r.spec_next_fd() == 0,
            r.root() == 0,
            r.kind() == fs_type,
    {
        let r = VirtualFileSystem {
            inodes: Vec::new(),
            root_inode: 0,
            open_files: Vec::new(),
            next_fd: 0,
            next_inode: 0,
            fs_type,
        };
        assert(r.table() =~= Seq::<Option<InodeModel>>::empty());
        r
    }

    fn slot(&self, id: u64) -> (r: Option<&INode>)
        ensures
            match r {
                Some(n) => table_get(self.table(), id) == Some(n@),
                None => table_get(self.table(), id) is None,
            },
    {
        if id < self.inodes.len() as u64 {
            match &self.inodes[id as usize] {
                Some(n) => Some(n),
                None => None,
            }
        } else {
            None
        }
    }

    fn take_slot(&mut self, id: usize) -> (r: Option<INode>)
        requires
            id < old(self).inodes@.len(),
        ensures
            r == old(self).inodes@[id as int],
            final(self).inodes@ == old(self).inodes@.update(id as int, None),
            final(self).open_files == old(self).open_files,
            final(self).next_fd == old(self).next_fd,
            final(self).next_inode == old(self).next_inode,
            final(self).root_inode == old(self).root_inode,
            final(self).fs_type == old(self).fs_type,
    {
        let mut slot: Option<INode> = None;
        std::mem::swap(&mut slot, &mut self.inodes[id]);
        slot
    }

    fn put_slot(&mut self, id: usize, n: INode)
        requires
            id < old(self).inodes@.len(),
        ensures
            final(self).inodes@ == old(self).inodes@.update(id as int, Some(n)),
            final(self).open_files == old(self).open_files,
            final(self).next_fd == old(self).next_fd,
            final(self).next_inode == old(self).next_inode,
            final(self).root_inode == old(self).root_inode,
            final(self).fs_type == old(self).fs_type,
    {
        self.inodes.set(id, Some(n));
    }

    /// Stores `n` as inode `id`, replacing or appending.
    fn store_inode(&mut self, id: u64, n: INode)
        requires
            id <= old(self).inodes@.len(),
        ensures
            final(self).table() == table_store(old(self).table(), id, n@),
            final(self).inodes@.len() >= old(self).inodes@.len(),
            final(self).open_files == old(self).open_files,
            final(self).next_fd == old(self).next_fd,
            final(self).next_inode == old(self).next_inode,
            final(self).root_inode == old(self).root_inode,
            final(self).fs_type == old(self).fs_type,
    {
        if id < self.inodes.len() as u64 {
            self.put_slot(id as usize, n);
            assert(self.table() =~= table_store(old(self).table(), id, n@));
        } else {
            self.inodes.push(Some(n));
            assert(self.table() =~= table_store(old(self).table(), id, n@));
        }
    }

    /// Removes inode `id`, if present.
    fn drop_inode(&mut self, id: u64)
        ensures
            final(self).table() == table_remove(old(self).table(), id),
            final(self).inodes@.len() == old(self).inodes@.len(),
            final(self).open_files == old(self).open_files,
            final(self).next_fd == old(self).next_fd,
            final(self).next_inode == old(self).next_inode,
            final(self).root_inode == old(self).root_inode,
            final(self).fs_type == old(self).fs_type,
    {
        if id < self.inodes.len() as u64 {
            self.inodes.set(id as usize, None);
            assert(self.table() =~= table_remove(old(self).table(), id));
        }
    }

    /// Appends an entry to directory `id`, if present.
    fn push_child(&mut self, id: u64, e: DirEntry)
        ensures
            final(self).table() == table_modify(
                old(self).table(),
                id,
                |m: InodeModel| InodeModel { children: m.children.push(e@), ..m },
            ),
            final(self).inodes@.len() == old(self).inodes@.len(),
            final(self).open_files == old(self).open_files,
            final(self).next_fd == old(self).next_fd,
            final(self).next_inode == old(self).next_inode,
            final(self).root_inode == old(self).root_inode,
            final(self).fs_type == old(self).fs_type,
    {
        if id < self.inodes.len() as u64 {
            let i = id as usize;
            match self.take_slot(i) {
                Some(mut n) => {
                    let ghost before = n@;
                    n.children.push(e);
                    assert(entries_model(n.children@) =~= before.children.push(e@));
                    self.put_slot(i, n);
                    assert(self.table() =~= table_modify(
                        old(self).table(),
                        id,
                        |m: InodeModel| InodeModel { children: m.children.push(e@), ..m },
                    ));
                },
                None => {
                    assert(self.inodes@ =~= old(self).inodes@);
                },
            }
        }
    }

    /// Removes entry `idx` of directory `id`, if present.
    fn remove_child(&mut self, id: u64, idx: usize)
        requires
            table_get(old(self).table(), id) is Some ==> idx < table_get(
                old(self).table(),
                id,
            )->0.children.len(),
        ensures
            final(self).table() == table_modify(
                old(self).table(),
                id,
                |m: InodeModel| InodeModel { children: m.children.remove(idx as int), ..m },
            ),
            final(self).inodes@.len() == old(self).inodes@.len(),
            final(self).open_files == old(self).open_files,
            final(self).next_fd == old(self).next_fd,
            final(self).next_inode == old(self).next_inode,
            final(self).root_inode == old(self).root_inode,
            final(self).fs_type == old(self).fs_type,
    {
        if id < self.inodes.len() as u64 {
            let i = id as usize;
            match self.take_slot(i) {
                Some(mut n) => {
                    let ghost before = n@;
                    n.children.remove(idx);
                    assert(entries_model(n.children@) =~= before.children.remove(idx as int));
                    self.put_slot(i, n);
                    assert(self.table() =~= table_modify(
                        old(self).table(),
                        id,
                        |m: InodeModel| InodeModel { children: m.children.remove(idx as int), ..m },
                    ));
                },
                None => {
                    assert(self.inodes@ =~= old(self).inodes@);
                },
            }
        }
    }

    /// Empties file `id`, if present.
    fn truncate_data(&mut self, id: u64)
        ensures
            final(self).table() == table_modify(old(self).table(), id, |m: InodeModel| truncated(m)),
            final(self).inodes@.len() == old(self).inodes@.len(),
            final(self).open_files == old(self).open_files,
            final(self).next_fd == old(self).next_fd,
            final(self).next_inode == old(self).next_inode,
            final(self).root_inode == old(self).root_inode,
            final(self).fs_type == old(self).fs_type,
    {
        if id < self.inodes.len() as u64 {
            let i = id as usize;
            match self.take_slot(i) {
                Some(mut n) => {
                    n.data.clear();
                    n.size = 0;
                    self.put_slot(i, n);
                    assert(self.table() =~= table_modify(old(self).table(), id, |m: InodeModel| truncated(m)));
                },
                None => {
                    assert(self.inodes@ =~= old(self).inodes@);
                },
            }
        }
    }

    /// Resets the access time of inode `id`, if present.
    fn touch_accessed(&mut self, id: u64)
        ensures
            final(self).table() == table_modify(old(self).table(), id, |m: InodeModel| touched(m)),
            final(self).inodes@.len() == old(self).inodes@.len(),
            final(self).open_files == old(self).open_files,
            final(self).next_fd == old(self).next_fd,
            final(self).next_inode == old(self).next_inode,
            final(self).root_inode == old(self).root_inode,
            final(self).fs_type == old(self).fs_type,
    {
        if id < self.inodes.len() as u64 {
            let i = id as usize;
            match self.take_slot(i) {
                Some(mut n) => {
                    n.accessed_at = 0;
                    self.put_slot(i, n);
                    assert(self.table() =~= table_modify(old(self).table(), id, |m: InodeModel| touched(m)));
                },
                None => {
                    assert(self.inodes@ =~= old(self).inodes@);
                },
            }
        }
    }

    /// Writes `buf` at `off` into file `id`, which is present.
    fn write_data(&mut self, id: u64, off: usize, buf: &[u8])
        requires
            table_get(old(self).table(), id) is Some,
            off + buf@.len() <= usize::MAX,
        ensures
            final(self).table() == written_table(old(self).table(), id, off as int, buf@),
            final(self).inodes@.len() == old(self).inodes@.len(),
            final(self).open_files == old(self).open_files,
            final(self).next_fd == old(self).next_fd,
            final(self).next_inode == old(self).next_inode,
            final(self).root_inode == old(self).root_inode,
            final(self).fs_type == old(self).fs_type,
    {
        let len = self.inodes.len();
        assert(id < len);
        let i = id as usize;
        let slot = self.take_slot(i);
        let ghost s0 = slot;
        assert(slot_model(s0) == old(self).table()[id as int]);
        match slot {
            Some(mut n) => {
                let ghost old_n = n@;
                assert(s0 == Some(n));
                let ghost before = n.data@;
                let mut data: Vec<u8> = Vec::new();
                std::mem::swap(&mut data, &mut n.data);
                let end = off + buf.len();
                while data.len() < end
                    invariant
                        data@.len() <= end || data@ == before,
                        data@.len() >= before.len(),
                        data@.subrange(0, before.len() as int) == before,
                        forall|k: int| before.len() <= k < data@.len() ==> #[trigger] data@[k] == 0u8,
                    decreases end - data@.len(),
                {
                    data.push(0u8);
                }
                let mut k: usize = 0;
                while k < buf.len()
                    invariant
                        k <= buf@.len(),
                        end == off + buf@.len(),
                        data@.len() == if end > before.len() { end as int } else { before.len() as int },
                        forall|q: int|
                            0 <= q < data@.len() ==> #[trigger] data@[q] == if off <= q < off + k {
                                buf@[q - off]
                            } else if q < before.len() {
                                before[q]
                            } else {
                                0u8
                            },
                    decreases buf@.len() - k,
                {
                    data.set(off + k, buf[k]);
                    k += 1;
                }
                assert(data@ =~= splice(before, off as int, buf@));
                n.data = data;
                n.size = n.data.len() as u64;
                n.modified_at = 0;
                let ghost d = splice(old_n.data, off as int, buf@);
                assert(n@ == InodeModel { data: d, size: d.len() as u64, modified_at: 0, ..old_n });
                let ghost newm = n@;
                self.put_slot(i, n);
                assert(old(self).table()[id as int] == Some(old_n));
                assert(self.table() =~= old(self).table().update(id as int, Some(newm)));
                assert(self.table() =~= written_table(old(self).table(), id, off as int, buf@));
            },
            None => {},
        }
    }
}


/// Names of the components of a path, as values.
proof fn lemma_walk_step(t: Seq<Option<InodeModel>>, cur: u64, cs: Seq<Seq<char>>, i: int)
    requires
        0 <= i < cs.len(),
    ensures
        cs.skip(i).len() > 0,
        cs.skip(i)[0] == cs[i],
        cs.skip(i).drop_first() == cs.skip(i + 1),
{
    assert(cs.skip(i).drop_first() =~= cs.skip(i + 1));
}

impl VirtualFileSystem {
    /// The counters that no table operation touches: next inode number,
    /// next descriptor, root inode and kind.
    pub open spec fn counters(&self) -> (u64, u32, u64, FsType) {
        (self.spec_next_inode(), self.spec_next_fd(), self.root(), self.kind())
    }

    /// Makes inode 0 an empty root directory and numbers new inodes from 1.
    pub fn init_root(&mut self)
        requires
            old(self).wf(),
        ensures
            final(self).wf(),
            final(self).table() == table_store(
                old(self).table(),
                0,
                new_inode(0, FileType::Directory, FilePermissions(0o755), None),
            ),
            final(self).fds() == old(self).fds(),
            final(self).root() == 0,
            final(self).spec_next_inode() == 1,
            final(self).spec_next_fd() == old(self).spec_next_fd(),
            final(self).kind() == old(self).kind(),
    {
        let root = INode::new_dir(0, FilePermissions::default_dir());
        assert(root@ == new_inode(0, FileType::Directory, FilePermissions(0o755), None)) by {
            assert(root.data@ =~= Seq::<u8>::empty());
            assert(entries_model(root.children@) =~= Seq::<EntryModel>::empty());
        }
        self.store_inode(0, root);
        proof {
            self.lemma_table_len();
        }
        self.root_inode = 0;
        self.next_inode = 1;
    }

    /// The inode with the given number.
    pub fn inode(&self, id: u64) -> (r: Option<&INode>)
        ensures
            match r {
                Some(n) => table_get(self.table(), id) == Some(n@),
                None => table_get(self.table(), id) is None,
            },
    {
        self.slot(id)
    }

    /// The inode a path names.
    pub fn resolve_path(&self, path: &str) -> (r: Result<u64, FsError>)
        ensures
            agrees(r, resolve(self.table(), self.root(), path@)),
    {
        if path.unicode_len() == 0 {
            return Err(FsError::InvalidPath(String::from_str("路径为空")));
        }
        let comps = path_components(path);
        let ghost cs = texts(comps@);
        let ghost t = self.table();
        let mut cur = self.root_inode;
        let mut i: usize = 0;
        assert(cs.skip(0) =~= cs);
        while i < comps.len()
            invariant
                i <= comps@.len(),
                cs == texts(comps@),
                cs == components(path@),
                cs.len() == comps@.len(),
                t == self.table(),
                path@.len() > 0,
                resolve(t, self.root(), path@) == walk(t, cur, cs.skip(i as int)),
            decreases comps@.len() - i,
        {
            proof {
                lemma_walk_step(t, cur, cs, i as int);
            }
            let part = comps[i].as_str();
            assert(part@ == cs[i as int]);
            if exceeds_name_limit(part) {
                return Err(FsError::NameTooLong(String::from_str(part)));
            }
            match self.slot(cur) {
                None => {
                    return Err(FsError::NotFound(text_around_number("INode ", cur, " 不存在")));
                },
                Some(n) => {
                    if !is_dir(n.file_type) {
                        return Err(FsError::NotADirectory(text_with_text(part, " 不是目录")));
                    }
                    match find_child(&n.children, part) {
                        None => {
                            return Err(FsError::NotFound(text_with_text(part, " 未找到")));
                        },
                        Some(j) => {
                            cur = n.children[j].inode;
                        },
                    }
                },
            }
            i += 1;
        }
        assert(cs.skip(i as int) =~= Seq::<Seq<char>>::empty());
        Ok(cur)
    }

    /// Creates an inode of the given kind under the path's parent.
    fn create_node(&mut self, path: &str, ft: FileType, permissions: FilePermissions) -> (r: Result<u64, FsError>)
        requires
            old(self).wf(),
            old(self).spec_next_inode() < u64::MAX,
        ensures
            created_post(*old(self), path@, ft, permissions, r, *final(self)),
    {
        let (parent, name) = match split_parent(path) {
            Ok(pn) => pn,
            Err(e) => {
                return Err(e);
            },
        };
        let pid = match self.resolve_path(parent.as_str()) {
            Ok(id) => id,
            Err(e) => {
                return Err(e);
            },
        };
        match self.slot(pid) {
            None => {
                return Err(FsError::NotFound(text_around_number("父目录 INode ", pid, " 不存在")));
            },
            Some(pn) => {
                if !is_dir(pn.file_type) {
                    return Err(FsError::NotADirectory(String::from_str("父路径不是目录")));
                }
                if find_child(&pn.children, name.as_str()).is_some() {
                    return Err(FsError::AlreadyExists(text_with_text(name.as_str(), " 已存在")));
                }
            },
        }
        let id = self.next_inode;
        self.next_inode = id + 1;
        let mut n = INode::new(id, ft, permissions);
        n.parent = Some(pid);
        assert(n@ == new_inode(id, ft, permissions, Some(pid))) by {
            assert(n.data@ =~= Seq::<u8>::empty());
            assert(entries_model(n.children@) =~= Seq::<EntryModel>::empty());
        }
        self.store_inode(id, n);
        let e = DirEntry { name, file_type: ft, inode: id };
        self.push_child(pid, e);
        Ok(id)
    }

    /// Creates an empty regular file.
    pub fn create_file(&mut self, path: &str, permissions: FilePermissions) -> (r: Result<u64, FsError>)
        requires
            old(self).wf(),
            old(self).spec_next_inode() < u64::MAX,
        ensures
            created_post(*old(self), path@, FileType::Regular, permissions, r, *final(self)),
    {
        self.create_node(path, FileType::Regular, permissions)
    }

    /// Creates an empty directory.
    pub fn create_dir(&mut self, path: &str, permissions: FilePermissions) -> (r: Result<u64, FsError>)
        requires
            old(self).wf(),
            old(self).spec_next_inode() < u64::MAX,
        ensures
            created_post(*old(self), path@, FileType::Directory, permissions, r, *final(self)),
    {
        self.create_node(path, FileType::Directory, permissions)
    }
}


impl VirtualFileSystem {
    fn fd_slot(&self, fd: u32) -> (r: Option<OpenFile>)
        ensures
            r == fd_get(self.fds(), fd),
    {
        if (fd as usize) < self.open_files.len() {
            self.open_files[fd as usize]
        } else {
            None
        }
    }

    fn set_fd(&mut self, fd: u32, of: Option<OpenFile>)
        requires
            fd < old(self).fds().len(),
        ensures
            final(self).fds() == old(self).fds().update(fd as int, of),
            final(self).inodes == old(self).inodes,
            final(self).counters() == old(self).counters(),
    {
        self.open_files.set(fd as usize, of);
    }

    /// Opens a path, creating or truncating it as the flags ask.
    #[verifier::rlimit(80)]
    #[verifier::spinoff_prover]
    pub fn open(&mut self, path: &str, flags: OpenFlags) -> (r: Result<FileDescriptor, FsError>)
        requires
            old(self).wf(),
            old(self).spec_next_fd() < u32::MAX,
            old(self).spec_next_inode() < u64::MAX,
        ensures
            open_post(*old(self), path@, flags, r, *final(self)),
    {
        let id = match self.resolve_path(path) {
            Ok(id) => {
                match self.slot(id) {
                    None => {
                        return Err(FsError::NotFound(text_around_number("INode ", id, " 不存在")));
                    },
                    Some(n) => {
                        if is_dir(n.file_type) && !flags.contains(OpenFlags::DIRECTORY()) {
                            return Err(FsError::IsADirectory(String::from_str(path)));
                        }
                    },
                }
                if flags.contains(OpenFlags::TRUNCATE()) && flags.is_writable() {
                    self.truncate_data(id);
                }
                id
            },
            Err(e) => {
                match e {
                    FsError::NotFound(_) => {
                        if flags.contains(OpenFlags::CREATE()) {
                            match self.create_file(path, FilePermissions::default_file()) {
                                Ok(id) => id,
                                Err(e2) => {
                                    return Err(e2);
                                },
                            }
                        } else {
                            return Err(FsError::NotFound(String::from_str(path)));
                        }
                    },
                    _ => {
                        return Err(e);
                    },
                }
            },
        };
        let fd = self.next_fd;
        self.next_fd = fd + 1;
        let of = OpenFile {
            inode_id: id,
            offset: 0,
            flags,
            is_readable: flags.is_readable(),
            is_writable: flags.is_writable(),
        };
        self.open_files.push(Some(of));
        self.touch_accessed(id);
        Ok(FileDescriptor(fd))
    }

    /// Closes a descriptor.
    pub fn close(&mut self, fd: FileDescriptor) -> (r: Result<(), FsError>)
        requires
            old(self).wf(),
        ensures
            close_post(*old(self), fd, r, *final(self)),
    {
        match self.fd_slot(fd.0) {
            None => Err(FsError::NotOpen(fd)),
            Some(_) => {
                self.set_fd(fd.0, None);
                Ok(())
            },
        }
    }

    /// Reads from the descriptor's offset into `buf`.
    pub fn read(&mut self, fd: FileDescriptor, buf: &mut [u8]) -> (r: Result<usize, FsError>)
        requires
            old(self).wf(),
        ensures
            read_post(*old(self), fd, old(buf)@, r, *final(self), final(buf)@),
    {
        let of = match self.fd_slot(fd.0) {
            None => {
                return Err(FsError::NotOpen(fd));
            },
            Some(of) => of,
        };
        if !of.is_readable {
            return Err(FsError::PermissionDenied(String::from_str("文件不可读")));
        }
        let cnt: usize;
        match self.slot(of.inode_id) {
            None => {
                return Err(FsError::NotFound(text_around_number("INode ", of.inode_id, " 不存在")));
            },
            Some(n) => {
                if is_dir(n.file_type) {
                    return Err(FsError::IsADirectory(String::from_str("不能读取目录")));
                }
                let len = n.data.len();
                if of.offset >= len as u64 {
                    return Ok(0);
                }
                let start = of.offset as usize;
                cnt = if buf.len() <= len - start {
                    buf.len()
                } else {
                    len - start
                };
                let ghost before = buf@;
                let mut k: usize = 0;
                while k < cnt
                    invariant
                        k <= cnt,
                        start + cnt <= n.data@.len(),
                        n.data@.len() == len,
                        cnt <= before.len(),
                        buf@.len() == before.len(),
                        forall|q: int| 0 <= q < k ==> #[trigger] buf@[q] == n.data@[start + q],
                        forall|q: int| k <= q < before.len() ==> #[trigger] buf@[q] == before[q],
                    decreases cnt - k,
                {
                    buf[k] = n.data[start + k];
                    k += 1;
                }
                assert(buf@ =~= n.data@.subrange(start as int, start + cnt) + before.skip(cnt as int));
            },
        }
        let new_of = OpenFile { offset: of.offset + cnt as u64, ..of };
        self.set_fd(fd.0, Some(new_of));
        self.touch_accessed(of.inode_id);
        Ok(cnt)
    }

    /// Writes `buf` at the descriptor's offset, or at the end in append mode.
    pub fn write(&mut self, fd: FileDescriptor, buf: &[u8]) -> (r: Result<usize, FsError>)
        requires
            old(self).wf(),
            write_fits(old(self).fds(), old(self).table(), fd.0, buf@.len()),
        ensures
            write_post(*old(self), fd, buf@, r, *final(self)),
    {
        let of = match self.fd_slot(fd.0) {
            None => {
                return Err(FsError::NotOpen(fd));
            },
            Some(of) => of,
        };
        if !of.is_writable {
            return Err(FsError::PermissionDenied(String::from_str("文件不可写")));
        }
        let off: usize;
        match self.slot(of.inode_id) {
            None => {
                return Err(FsError::NotFound(text_around_number("INode ", of.inode_id, " 不存在")));
            },
            Some(n) => {
                if is_dir(n.file_type) {
                    return Err(FsError::IsADirectory(String::from_str("不能写入目录")));
                }
                off = if of.flags.contains(OpenFlags::APPEND()) {
                    n.data.len()
                } else {
                    of.offset as usize
                };
            },
        }
        self.write_data(of.inode_id, off, buf);
        let new_of = OpenFile { offset: (off + buf.len()) as u64, ..of };
        self.set_fd(fd.0, Some(new_of));
        Ok(buf.len())
    }

    /// Moves the descriptor's offset.
    pub fn seek(&mut self, fd: FileDescriptor, pos: SeekFrom) -> (r: Result<u64, FsError>)
        requires
            old(self).wf(),
            seek_fits(old(self).fds(), old(self).table(), fd.0, pos),
        ensures
            final(self).wf(),
            match fd_get(old(self).fds(), fd.0) {
                None => r == Err::<u64, FsError>(FsError::NotOpen(fd)) && *final(self) == *old(self),
                Some(of) => match table_get(old(self).table(), of.inode_id) {
                    None => r is Err && error_is(r->Err_0, (FsErrorKind::NotFound, inode_missing(of.inode_id)))
                        && *final(self) == *old(self),
                    Some(n) => {
                        let target = seek_target(of, n.data.len(), pos);
                        if target < 0 {
                            r == Err::<u64, FsError>(FsError::InvalidOffset) && *final(self) == *old(self)
                        } else {
                            &&& r == Ok::<u64, FsError>(target as u64)
                            &&& final(self).fds() == old(self).fds().update(
                                fd.0 as int,
                                Some(OpenFile { offset: target as u64, ..of }),
                            )
                            &&& final(self).table() == old(self).table()
                            &&& final(self).counters() == old(self).counters()
                        }
                    },
                },
            },
    {
        let of = match self.fd_slot(fd.0) {
            None => {
                return Err(FsError::NotOpen(fd));
            },
            Some(of) => of,
        };
        let size: usize = match self.slot(of.inode_id) {
            None => {
                return Err(FsError::NotFound(text_around_number("INode ", of.inode_id, " 不存在")));
            },
            Some(n) => n.data.len(),
        };
        let target: i64 = match pos {
            SeekFrom::Start(o) => o as i64,
            SeekFrom::Current(d) => of.offset as i64 + d,
            SeekFrom::End(d) => size as i64 + d,
        };
        if target < 0 {
            return Err(FsError::InvalidOffset);
        }
        let new_of = OpenFile { offset: target as u64, ..of };
        self.set_fd(fd.0, Some(new_of));
        Ok(target as u64)
    }
}


/// What removing the file at a path would remove: its parent, its entry's
/// position there and its inode; or why it cannot.
pub open spec fn remove_file_check(t: Seq<Option<InodeModel>>, root: u64, f: Seq<Option<OpenFile>>, p: Seq<char>) -> Result<
    (u64, int, u64),
    FsFault,
> {
    match removal_target(t, root, p) {
        Err(k) => Err(k),
        Ok((pid, idx)) => {
            let e = table_get(t, pid)->0.children[idx];
            if is_directory(e.file_type) {
                Err((FsErrorKind::IsADirectory, "'"@ + final_name(p) + "'"@ + " 是目录，请使用 remove_dir"@))
            } else if inode_in_use(f, e.inode) {
                Err((FsErrorKind::IoError, "'"@ + final_name(p) + "'"@ + " 正在使用中"@))
            } else {
                Ok((pid, idx, e.inode))
            }
        },
    }
}

/// What removing the directory at a path would remove, or why it cannot.
pub open spec fn remove_dir_check(t: Seq<Option<InodeModel>>, root: u64, p: Seq<char>) -> Result<
    (u64, int, u64),
    FsFault,
> {
    match removal_target(t, root, p) {
        Err(k) => Err(k),
        Ok((pid, idx)) => {
            let e = table_get(t, pid)->0.children[idx];
            if !is_directory(e.file_type) {
                Err((FsErrorKind::NotADirectory, "'"@ + final_name(p) + "'"@ + " 不是目录"@))
            } else {
                match table_get(t, e.inode) {
                    None => Err((FsErrorKind::NotFound, inode_missing(e.inode))),
                    Some(d) => if d.children.len() > 0 {
                        Err((FsErrorKind::DirectoryNotEmpty, "'"@ + final_name(p) + "'"@ + " 目录非空"@))
                    } else {
                        Ok((pid, idx, e.inode))
                    },
                }
            }
        },
    }
}

/// The directory a path names, or why it cannot be listed.
pub open spec fn list_check(t: Seq<Option<InodeModel>>, root: u64, p: Seq<char>) -> Result<InodeModel, FsFault> {
    match resolve(t, root, p) {
        Err(k) => Err(k),
        Ok(id) => match table_get(t, id) {
            None => Err((FsErrorKind::NotFound, inode_missing(id))),
            Some(n) => if !is_directory(n.file_type) {
                Err((FsErrorKind::NotADirectory, p))
            } else {
                Ok(n)
            },
        },
    }
}

/// The inode a path names, as `stat` reports it.
pub open spec fn stat_check(t: Seq<Option<InodeModel>>, root: u64, p: Seq<char>) -> Result<InodeModel, FsFault> {
    match resolve(t, root, p) {
        Err(k) => Err(k),
        Ok(id) => match table_get(t, id) {
            None => Err((FsErrorKind::NotFound, inode_missing(id))),
            Some(n) => Ok(n),
        },
    }
}

proof fn lemma_count_step<T>(s: Seq<Option<T>>, i: int)
    requires
        0 <= i < s.len(),
    ensures
        count_some(s.take(i + 1)) == count_some(s.take(i)) + if s[i] is Some {
            1nat
        } else {
            0nat
        },
        count_some(s.take(i)) <= i,
{
    assert(s.take(i + 1).drop_last() =~= s.take(i));
    lemma_count_bound(s.take(i));
}

proof fn lemma_count_bound<T>(s: Seq<Option<T>>)
    ensures
        count_some(s) <= s.len(),
    decreases s.len(),
{
    if s.len() > 0 {
        lemma_count_bound(s.drop_last());
    }
}

proof fn lemma_total_step(t: Seq<Option<InodeModel>>, i: int)
    requires
        0 <= i < t.len(),
    ensures
        total_data(t.take(i + 1)) == total_data(t.take(i)) + match t[i] {
            Some(n) => n.data.len(),
            None => 0,
        },
{
    assert(t.take(i + 1).drop_last() =~= t.take(i));
}

proof fn lemma_total_prefix(t: Seq<Option<InodeModel>>, i: int)
    requires
        0 <= i <= t.len(),
    ensures
        total_data(t.take(i)) <= total_data(t),
    decreases t.len() - i,
{
    if i < t.len() {
        lemma_total_step(t, i);
        lemma_total_prefix(t, i + 1);
    } else {
        assert(t.take(i) =~= t);
    }
}

/// Total size the statistics report, in bytes.
pub open spec fn stats_total_size() -> u64 {
    1073741824
}

impl VirtualFileSystem {
    /// Some open file refers to the inode.
    fn in_use(&self, id: u64) -> (r: bool)
        ensures
            r == inode_in_use(self.fds(), id),
    {
        let mut i: usize = 0;
        while i < self.open_files.len()
            invariant
                i <= self.open_files@.len(),
                forall|k: int|
                    0 <= k < i ==> !(#[trigger] self.open_files@[k] is Some && self.open_files@[k]->0.inode_id
                        == id),
            decreases self.open_files@.len() - i,
        {
            match &self.open_files[i] {
                Some(of) => {
                    if of.inode_id == id {
                        return true;
                    }
                },
                None => {},
            }
            i += 1;
        }
        false
    }

    /// The parent directory and entry position a removal path names.
    fn find_removal(&self, path: &str) -> (r: Result<(u64, usize, u64, FileType, String), FsError>)
        ensures
            match removal_target(self.table(), self.root(), path@) {
                Err(k) => r is Err && error_is(r->Err_0, k),
                Ok((pid, idx)) => {
                    let e = table_get(self.table(), pid)->0.children[idx];
                    &&& r is Ok
                    &&& r->Ok_0.0 == pid
                    &&& r->Ok_0.1 as int == idx
                    &&& r->Ok_0.2 == e.inode
                    &&& r->Ok_0.3 == e.file_type
                    &&& r->Ok_0.4@ == final_name(path@)
                    &&& 0 <= idx < table_get(self.table(), pid)->0.children.len()
                },
            },
    {
        let (parent, name) = match split_parent(path) {
            Ok(pn) => pn,
            Err(e) => {
                return Err(e);
            },
        };
        let pid = match self.resolve_path(parent.as_str()) {
            Ok(id) => id,
            Err(e) => {
                return Err(e);
            },
        };
        match self.slot(pid) {
            None => Err(FsError::NotFound(text_around_number("父目录 INode ", pid, " 不存在"))),
            Some(pn) => match find_child(&pn.children, name.as_str()) {
                None => Err(FsError::NotFound(quoted_with(name.as_str(), " 未找到"))),
                Some(j) => Ok((pid, j, pn.children[j].inode, pn.children[j].file_type, name)),
            },
        }
    }

    /// Drops inode `target` and entry `idx` of directory `pid`.
    fn remove_entry(&mut self, pid: u64, idx: usize, target: u64)
        requires
            old(self).wf(),
            table_get(old(self).table(), pid) is Some ==> idx < table_get(old(self).table(), pid)->0.children.len(),
        ensures
            final(self).wf(),
            final(self).table() == removed_table(old(self).table(), pid, idx as int, target),
            final(self).fds() == old(self).fds(),
            final(self).counters() == old(self).counters(),
    {
        self.drop_inode(target);
        self.remove_child(pid, idx);
        assert(self.table() =~= removed_table(old(self).table(), pid, idx as int, target));
    }

    /// Removes a regular file that no descriptor refers to.
    pub fn remove_file(&mut self, path: &str) -> (r: Result<(), FsError>)
        requires
            old(self).wf(),
        ensures
            final(self).wf(),
            match remove_file_check(old(self).table(), old(self).root(), old(self).fds(), path@) {
                Err(k) => r is Err && error_is(r->Err_0, k) && *final(self) == *old(self),
                Ok((pid, idx, target)) => {
                    &&& r is Ok
                    &&& final(self).table() == removed_table(old(self).table(), pid, idx, target)
                    &&& final(self).fds() == old(self).fds()
                    &&& final(self).counters() == old(self).counters()
                },
            },
    {
        let (pid, idx, target, ft, name) = match self.find_removal(path) {
            Ok(x) => x,
            Err(e) => {
                return Err(e);
            },
        };
        if is_dir(ft) {
            return Err(FsError::IsADirectory(quoted_with(name.as_str(), " 是目录，请使用 remove_dir")));
        }
        if self.in_use(target) {
            return Err(FsError::IoError(quoted_with(name.as_str(), " 正在使用中")));
        }
        self.remove_entry(pid, idx, target);
        Ok(())
    }

    /// Removes an empty directory.
    pub fn remove_dir(&mut self, path: &str) -> (r: Result<(), FsError>)
        requires
            old(self).wf(),
        ensures
            final(self).wf(),
            match remove_dir_check(old(self).table(), old(self).root(), path@) {
                Err(k) => r is Err && error_is(r->Err_0, k) && *final(self) == *old(self),
                Ok((pid, idx, target)) => {
                    &&& r is Ok
                    &&& final(self).table() == removed_table(old(self).table(), pid, idx, target)
                    &&& final(self).fds() == old(self).fds()
                    &&& final(self).counters() == old(self).counters()
                },
            },
    {
        let (pid, idx, target, ft, name) = match self.find_removal(path) {
            Ok(x) => x,
            Err(e) => {
                return Err(e);
            },
        };
        if !is_dir(ft) {
            return Err(FsError::NotADirectory(quoted_with(name.as_str(), " 不是目录")));
        }
        match self.slot(target) {
            None => {
                return Err(FsError::NotFound(text_around_number("INode ", target, " 不存在")));
            },
            Some(d) => {
                if d.children.len() > 0 {
                    return Err(FsError::DirectoryNotEmpty(quoted_with(name.as_str(), " 目录非空")));
                }
            },
        }
        self.remove_entry(pid, idx, target);
        Ok(())
    }

    /// The entries of the directory a path names.
    pub fn list_dir(&self, path: &str) -> (r: Result<Vec<DirEntry>, FsError>)
        ensures
            list_post(*self, path@, r),
    {
        let id = match self.resolve_path(path) {
            Ok(id) => id,
            Err(e) => {
                return Err(e);
            },
        };
        match self.slot(id) {
            None => Err(FsError::NotFound(text_around_number("INode ", id, " 不存在"))),
            Some(n) => {
                if !is_dir(n.file_type) {
                    Err(FsError::NotADirectory(String::from_str(path)))
                } else {
                    Ok(copy_entries(&n.children))
                }
            },
        }
    }

    /// The attributes of the inode a path names.
    pub fn stat(&self, path: &str) -> (r: Result<FileAttr, FsError>)
        ensures
            match stat_check(self.table(), self.root(), path@) {
                Err(k) => r is Err && error_is(r->Err_0, k),
                Ok(n) => r == Ok::<FileAttr, FsError>(attr_of(n)),
            },
    {
        let id = match self.resolve_path(path) {
            Ok(id) => id,
            Err(e) => {
                return Err(e);
            },
        };
        match self.slot(id) {
            None => Err(FsError::NotFound(text_around_number("INode ", id, " 不存在"))),
            Some(n) => Ok(
                FileAttr {
                    file_type: n.file_type,
                    size: n.size,
                    permissions: n.permissions,
                    created_at: n.created_at,
                    modified_at: n.modified_at,
                    accessed_at: n.accessed_at,
                    uid: 0,
                    gid: 0,
                    nlinks: 1,
                },
            ),
        }
    }

    /// Usage statistics: inode numbers handed out, inodes present, bytes
    /// stored and descriptors open.
    pub fn stats(&self) -> (r: FsStats)
        requires
            total_data(self.table()) <= u64::MAX,
        ensures
            r == (FsStats {
                total_inodes: self.spec_next_inode(),
                used_inodes: count_some(self.table()) as u64,
                total_size: stats_total_size(),
                used_size: total_data(self.table()) as u64,
                open_files: count_some(self.fds()) as u32,
                fs_type: self.kind(),
            }),
    {
        let ghost t = self.table();
        let mut used: u64 = 0;
        let mut bytes: u64 = 0;
        let mut i: usize = 0;
        proof {
            self.lemma_table_len();
        }
        while i < self.inodes.len()
            invariant
                i <= self.inodes@.len(),
                t == self.table(),
                t.len() == self.inodes@.len(),
                total_data(t) <= u64::MAX,
                used == count_some(t.take(i as int)),
                bytes == total_data(t.take(i as int)),
            decreases self.inodes@.len() - i,
        {
            proof {
                lemma_count_step(t, i as int);
                lemma_total_step(t, i as int);
                lemma_total_prefix(t, i + 1);
                self.lemma_table_len();
            }
            match &self.inodes[i] {
                Some(n) => {
                    used = used + 1;
                    bytes = bytes + n.data.len() as u64;
                },
                None => {},
            }
            i += 1;
        }
        assert(t.take(i as int) =~= t);
        let ghost f = self.fds();
        let mut open: usize = 0;
        let mut j: usize = 0;
        while j < self.open_files.len()
            invariant
                j <= self.open_files@.len(),
                f == self.fds(),
                f == self.open_files@,
                open == count_some(f.take(j as int)),
            decreases self.open_files@.len() - j,
        {
            proof {
                lemma_count_step(f, j as int);
            }
            if self.open_files[j].is_some() {
                open = open + 1;
            }
            j += 1;
        }
        assert(f.take(j as int) =~= f);
        FsStats {
            total_inodes: self.next_inode,
            used_inodes: used,
            total_size: 1073741824,
            used_size: bytes,
            open_files: open as u32,
            fs_type: self.fs_type,
        }
    }
}

/// What creating a file or directory of kind `ft` at `path` does: `v`
/// before, `w` after, `r` the result.
pub open spec fn created_post(v: VirtualFileSystem, path: Seq<char>, ft: FileType, permissions: FilePermissions, r: Result<u64, FsError>, w: VirtualFileSystem) -> bool {
    &&& w.wf()
    &&& match create_check(v.table(), v.root(), path) {
        Err(k) => r is Err && error_is(r->Err_0, k) && w == v,
        Ok(pid) => {
            &&& r == Ok::<u64, FsError>(v.spec_next_inode())
            &&& w.table() == created_table(
                v.table(),
                pid,
                v.spec_next_inode(),
                final_name(path),
                ft,
                permissions,
            )
            &&& w.fds() == v.fds()
            &&& w.spec_next_inode() == v.spec_next_inode() + 1
            &&& w.spec_next_fd() == v.spec_next_fd()
            &&& w.root() == v.root()
            &&& w.kind() == v.kind()
        },
    }
}

/// What opening `path` does: `v` before, `w` after, `r` the result.
pub open spec fn open_post(v: VirtualFileSystem, path: Seq<char>, flags: OpenFlags, r: Result<FileDescriptor, FsError>, w: VirtualFileSystem) -> bool {
    &&& w.wf()
    &&& match open_target(v.table(), v.root(), v.spec_next_inode(), path, flags) {
        Err(k) => r is Err && error_is(r->Err_0, k) && w == v,
        Ok((id, t, ni)) => {
            &&& r == Ok::<FileDescriptor, FsError>(FileDescriptor(v.spec_next_fd()))
            &&& w.table() == table_modify(t, id, |m: InodeModel| touched(m))
            &&& w.fds() == v.fds().push(
                Some(
                    OpenFile {
                        inode_id: id,
                        offset: 0,
                        flags,
                        is_readable: flags.0 & 1 != 0,
                        is_writable: flags_writable(flags),
                    },
                ),
            )
            &&& w.spec_next_inode() == ni
            &&& w.spec_next_fd() == v.spec_next_fd() + 1
            &&& w.root() == v.root()
            &&& w.kind() == v.kind()
        },
    }
}

/// What closing `fd` does.
pub open spec fn close_post(v: VirtualFileSystem, fd: FileDescriptor, r: Result<(), FsError>, w: VirtualFileSystem) -> bool {
    &&& w.wf()
    &&& match fd_get(v.fds(), fd.0) {
        None => r == Err::<(), FsError>(FsError::NotOpen(fd)) && w == v,
        Some(_) => {
            &&& r is Ok
            &&& w.fds() == v.fds().update(fd.0 as int, None)
            &&& w.table() == v.table()
            &&& w.counters() == v.counters()
        },
    }
}

/// What a read through `fd` does: `b` and `b2` are the buffer before and
/// after.
pub open spec fn read_post(v: VirtualFileSystem, fd: FileDescriptor, b: Seq<u8>, r: Result<usize, FsError>, w: VirtualFileSystem, b2: Seq<u8>) -> bool {
    &&& w.wf()
    &&& match read_check(v.fds(), v.table(), fd.0) {
        Err(k) => r is Err && error_is(r->Err_0, k) && w == v && b2 == b,
        Ok((of, n)) => if of.offset >= n.data.len() {
            r == Ok::<usize, FsError>(0) && w == v && b2 == b
        } else {
            let c = read_count(of, n, b.len());
            &&& r == Ok::<usize, FsError>(c as usize)
            &&& b2 == n.data.subrange(of.offset as int, of.offset + c) + b.skip(c)
            &&& w.table() == table_modify(v.table(), of.inode_id, |m: InodeModel| touched(m))
            &&& w.fds() == v.fds().update(
                fd.0 as int,
                Some(OpenFile { offset: (of.offset + c) as u64, ..of }),
            )
            &&& w.counters() == v.counters()
        },
    }
}

/// What a write of `buf` through `fd` does.
pub open spec fn write_post(v: VirtualFileSystem, fd: FileDescriptor, buf: Seq<u8>, r: Result<usize, FsError>, w: VirtualFileSystem) -> bool {
    &&& w.wf()
    &&& match write_check(v.fds(), v.table(), fd.0) {
        Err(k) => r is Err && error_is(r->Err_0, k) && w == v,
        Ok((of, n)) => {
            let off = write_start(of, n);
            &&& r == Ok::<usize, FsError>(buf.len() as usize)
            &&& w.table() == written_table(v.table(), of.inode_id, off, buf)
            &&& w.fds() == v.fds().update(
                fd.0 as int,
                Some(OpenFile { offset: (off + buf.len()) as u64, ..of }),
            )
            &&& w.counters() == v.counters()
        },
    }
}

/// What listing `path` returns.
pub open spec fn list_post(v: VirtualFileSystem, path: Seq<char>, r: Result<Vec<DirEntry>, FsError>) -> bool {
    match list_check(v.table(), v.root(), path) {
        Err(k) => r is Err && error_is(r->Err_0, k),
        Ok(n) => r is Ok && entries_model(r->Ok_0@) == n.children,
    }
}

/// After a successful write, the file holds the written bytes where the
/// write started, and the descriptor's offset stands just past them.
pub proof fn law_write_reads_back(
    v: VirtualFileSystem,
    fd: FileDescriptor,
    buf: Seq<u8>,
    r: Result<usize, FsError>,
    w: VirtualFileSystem,
)
    requires
        write_post(v, fd, buf, r, w),
        r is Ok,
    ensures
        write_check(v.fds(), v.table(), fd.0) is Ok,
        ({
            let (of, n) = write_check(v.fds(), v.table(), fd.0)->Ok_0;
            let off = write_start(of, n);
            &&& table_get(w.table(), of.inode_id) is Some
            &&& table_get(w.table(), of.inode_id)->0.data.subrange(off, off + buf.len()) == buf
            &&& fd_get(w.fds(), fd.0) == Some(OpenFile { offset: (off + buf.len()) as u64, ..of })
        }),
{
    let (of, n) = write_check(v.fds(), v.table(), fd.0)->Ok_0;
    let off = write_start(of, n);
    crate::fs::model::law_splice_reads_back(n.data, off, buf);
}

/// Clearing a present slot leaves one slot fewer present.
proof fn lemma_count_clear<T>(s: Seq<Option<T>>, i: int)
    requires
        0 <= i < s.len(),
        s[i] is Some,
    ensures
        count_some(s.update(i, None)) + 1 == count_some(s),
    decreases s.len(),
{
    let u = s.update(i, None);
    if i == s.len() - 1 {
        assert(u.drop_last() =~= s.drop_last());
    } else {
        assert(u.drop_last() =~= s.drop_last().update(i, None));
        lemma_count_clear(s.drop_last(), i);
    }
}

/// Replacing what a present slot holds keeps the number of present slots.
proof fn lemma_count_replace<T>(s: Seq<Option<T>>, i: int, x: T)
    requires
        0 <= i < s.len(),
        s[i] is Some,
    ensures
        count_some(s.update(i, Some(x))) == count_some(s),
    decreases s.len(),
{
    let u = s.update(i, Some(x));
    if i == s.len() - 1 {
        assert(u.drop_last() =~= s.drop_last());
    } else {
        assert(u.drop_last() =~= s.drop_last().update(i, Some(x)));
        lemma_count_replace(s.drop_last(), i, x);
    }
}

/// Removing a file takes its entry out of its parent directory, the other
/// entries keeping their order, and its inode out of the table, so one inode
/// fewer is in use. Where the parent path still names that directory, a
/// second removal of the same path finds no such entry.
///
/// This holds where the removed entry is not the directory's own inode, its
/// inode is present, and no other entry of the directory has its name; a
/// table built through this file system's own operations has all three.
pub proof fn law_remove_file(
    v: VirtualFileSystem,
    p: Seq<char>,
    pid: u64,
    idx: int,
    target: u64,
    w: VirtualFileSystem,
)
    requires
        v.wf(),
        remove_file_check(v.table(), v.root(), v.fds(), p) == Ok::<(u64, int, u64), FsFault>((pid, idx, target)),
        w.table() == removed_table(v.table(), pid, idx, target),
        w.fds() == v.fds(),
        w.root() == v.root(),
        target != pid,
        table_get(v.table(), target) is Some,
        forall|j: int|
            0 <= j < table_get(v.table(), pid)->0.children.len() && j != idx ==> (#[trigger] table_get(
                v.table(),
                pid,
            )->0.children[j]).name != final_name(p),
    ensures
        ({
            let old_dir = table_get(v.table(), pid)->0;
            &&& table_get(v.table(), pid) is Some
            &&& 0 <= idx < old_dir.children.len()
            &&& old_dir.children[idx].name == final_name(p)
            &&& old_dir.children[idx].inode == target
            &&& table_get(w.table(), pid) == Some(InodeModel { children: old_dir.children.remove(idx), ..old_dir })
        }),
        table_get(w.table(), target) is None,
        count_some(w.table()) + 1 == count_some(v.table()),
        parent_check(w.table(), w.root(), p) == Ok::<u64, FsFault>(pid) ==> remove_file_check(
            w.table(),
            w.root(),
            w.fds(),
            p,
        ) == Err::<(u64, int, u64), FsFault>(
            (FsErrorKind::NotFound, "'"@ + final_name(p) + "'"@ + " 未找到"@),
        ),
{
    let t = v.table();
    let old_dir = table_get(t, pid)->0;
    let name = final_name(p);
    assert(has_child(old_dir.children, name));
    assert(idx == first_child(old_dir.children, name));
    let t1 = table_remove(t, target);
    assert(t1 == t.update(target as int, None));
    lemma_count_clear(t, target as int);
    let new_dir = InodeModel { children: old_dir.children.remove(idx), ..old_dir };
    assert(t1[pid as int] == t[pid as int]);
    assert(w.table() == t1.update(pid as int, Some(new_dir)));
    lemma_count_replace(t1, pid as int, new_dir);
    assert(table_get(w.table(), pid) == Some(new_dir));
    assert(table_get(w.table(), target) is None);
    if parent_check(w.table(), w.root(), p) == Ok::<u64, FsFault>(pid) {
        assert(!has_child(new_dir.children, name)) by {
            if has_child(new_dir.children, name) {
                let j = choose|j: int| 0 <= j < new_dir.children.len() && #[trigger] new_dir.children[j].name == name;
                let j2 = if j < idx { j } else { j + 1 };
                assert(new_dir.children[j] == old_dir.children[j2]);
            }
        }
    }
}

} // verus!
