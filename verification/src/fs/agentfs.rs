//! Per-agent file systems: every agent has a namespace of its own, and all
//! agents share one more.
use vstd::prelude::*;
use crate::keyed::{keys_distinct, has_key, key_index, seq_to_map, key_seq, lemma_entry, lemma_absent, lemma_empty, lemma_insert, lemma_remove, lemma_update};
use crate::text::{text_around_number, decimal};
use crate::fs::types::{DirEntry, FileDescriptor, FilePermissions, FileType, FsError, FsErrorKind, FsType, OpenFlags, error_kind, error_is};
use crate::fs::model::{InodeModel, new_inode};
use crate::fs::vfs::{VirtualFileSystem, created_post, open_post, close_post, read_post, write_post, list_post};

verus! {

/// The text of an agent that already has a file system.
pub open spec fn agent_fs_exists(agent_id: u64) -> Seq<char> {
    "Agent "@ + decimal(agent_id as nat) + " 文件系统已存在"@
}

/// The text of an agent without a file system.
pub open spec fn agent_fs_missing(agent_id: u64) -> Seq<char> {
    "Agent "@ + decimal(agent_id as nat) + " 文件系统不存在"@
}

/// A file system as `AgentFileSystem` makes it: only an empty root directory,
/// no descriptors, inode numbers handed out from 1.
pub open spec fn fresh_root_vfs(v: VirtualFileSystem) -> bool {
    &&& v.wf()
    &&& v.table() == seq![Some(new_inode(0, FileType::Directory, FilePermissions(0o755), None))]
    &&& v.fds() == Seq::<Option<crate::fs::types::OpenFile>>::empty()
    &&& v.spec_next_inode() == 1
    &&& v.spec_next_fd() == 0
    &&& v.root() == 0
    &&& v.kind() == FsType::AgentFS
}

/// Keys in strictly ascending order.
pub open spec fn ascending<V>(s: Seq<(u64, V)>) -> bool {
    forall|i: int, j: int| 0 <= i < j < s.len() ==> #[trigger] s[i].0 < #[trigger] s[j].0
}

/// Each agent's own file system, and one shared by all.
pub struct AgentFileSystem {
    agent_vfs: Vec<(u64, VirtualFileSystem)>,
    shared_vfs: VirtualFileSystem,
}

/// A file system with an empty root directory.
fn fresh_vfs() -> (r: VirtualFileSystem)
    ensures
        fresh_root_vfs(r),
{
    let mut v = VirtualFileSystem::new(FsType::AgentFS);
    v.init_root();
    proof {
        assert(v.table() =~= seq![Some(new_inode(0, FileType::Directory, FilePermissions(0o755), None))]);
        assert(v.fds() =~= Seq::<Option<crate::fs::types::OpenFile>>::empty());
    }
    v
}

impl AgentFileSystem {
    /// The agents' file systems, by agent id.
    pub closed spec fn agents(&self) -> Map<u64, VirtualFileSystem> {
        seq_to_map(self.agent_vfs@)
    }

    /// The file system all agents share.
    pub closed spec fn shared(&self) -> VirtualFileSystem {
        self.shared_vfs
    }

    /// Entries are kept in ascending order of agent id, and every file system
    /// is well formed.
    pub closed spec fn wf(&self) -> bool {
        &&& ascending(self.agent_vfs@)
        &&& forall|i: int| 0 <= i < self.agent_vfs@.len() ==> (#[trigger] self.agent_vfs@[i]).1.wf()
        &&& self.shared_vfs.wf()
    }

    proof fn lemma_wf(&self)
        requires
            self.wf(),
        ensures
            keys_distinct(self.agent_vfs@),
            forall|k: u64| #[trigger] self.agents().dom().contains(k) ==> self.agents()[k].wf(),
            self.agents().dom().finite(),
    {
        let s = self.agent_vfs@;
        assert forall|a: int, b: int| 0 <= a < s.len() && 0 <= b < s.len() && a != b implies #[trigger] s[a].0
            != #[trigger] s[b].0 by {
            if a < b {
                assert(s[a].0 < s[b].0);
            } else {
                assert(s[b].0 < s[a].0);
            }
        }
        assert forall|k: u64| #[trigger] self.agents().dom().contains(k) implies self.agents()[k].wf() by {
            let i = key_index(s, k);
            lemma_entry(s, i);
            assert(s[i].1.wf());
        }
        crate::keyed::lemma_len(s);
    }

    /// No agents yet; the shared area has an empty root directory.
    pub fn new() -> (r: AgentFileSystem)
        ensures
            r.wf(),
            r.agents() == Map::<u64, VirtualFileSystem>::empty(),
            fresh_root_vfs(r.shared()),
    {
        let r = AgentFileSystem { agent_vfs: Vec::new(), shared_vfs: fresh_vfs() };
        proof {
            lemma_empty::<u64, VirtualFileSystem>();
            assert(r.agent_vfs@ =~= Seq::<(u64, VirtualFileSystem)>::empty());
        }
        r
    }

    /// The position of the agent's entry, if it has one.
    fn find_agent(&self, agent_id: u64) -> (r: Option<usize>)
        requires
            self.wf(),
        ensures
            match r {
                Some(i) => i < self.agent_vfs@.len() && self.agent_vfs@[i as int].0 == agent_id
                    && self.agents().dom().contains(agent_id) && self.agents()[agent_id]
                    == self.agent_vfs@[i as int].1,
                None => !self.agents().dom().contains(agent_id),
            },
    {
        proof {
            self.lemma_wf();
        }
        let mut i: usize = 0;
        while i < self.agent_vfs.len()
            invariant
                i <= self.agent_vfs@.len(),
                keys_distinct(self.agent_vfs@),
                forall|k: int| 0 <= k < i ==> #[trigger] self.agent_vfs@[k].0 != agent_id,
            decreases self.agent_vfs@.len() - i,
        {
            if self.agent_vfs[i].0 == agent_id {
                proof {
                    lemma_entry(self.agent_vfs@, i as int);
                }
                return Some(i);
            }
            i += 1;
        }
        proof {
            lemma_absent(self.agent_vfs@, agent_id);
        }
        None
    }

    /// Gives the agent a file system of its own.
    pub fn create_agent_fs(&mut self, agent_id: u64) -> (r: Result<(), FsError>)
        requires
            old(self).wf(),
        ensures
            final(self).wf(),
            final(self).shared() == old(self).shared(),
            if old(self).agents().dom().contains(agent_id) {
                r is Err && error_is(r->Err_0, (FsErrorKind::AlreadyExists, agent_fs_exists(agent_id))) && final(self).agents()
                    == old(self).agents()
            } else {
                &&& r is Ok
                &&& final(self).agents() == old(self).agents().insert(agent_id, final(self).agents()[agent_id])
                &&& fresh_root_vfs(final(self).agents()[agent_id])
            },
    {
        proof {
            self.lemma_wf();
        }
        let ghost s = self.agent_vfs@;
        let mut pos: usize = 0;
        while pos < self.agent_vfs.len() && self.agent_vfs[pos].0 < agent_id
            invariant
                pos <= self.agent_vfs@.len(),
                s == self.agent_vfs@,
                ascending(s),
                forall|k: int| 0 <= k < pos ==> #[trigger] s[k].0 < agent_id,
            decreases self.agent_vfs@.len() - pos,
        {
            pos += 1;
        }
        if pos < self.agent_vfs.len() && self.agent_vfs[pos].0 == agent_id {
            proof {
                lemma_entry(s, pos as int);
            }
            return Err(FsError::AlreadyExists(text_around_number("Agent ", agent_id, " 文件系统已存在")));
        }
        proof {
            assert forall|k: int| 0 <= k < s.len() implies #[trigger] s[k].0 != agent_id by {
                if k >= pos {
                    if k > pos {
                        assert(s[pos as int].0 < s[k].0);
                    }
                }
            }
            lemma_absent(s, agent_id);
        }
        let v = fresh_vfs();
        let ghost gv = v;
        self.agent_vfs.insert(pos, (agent_id, v));
        proof {
            lemma_insert(s, pos as int, agent_id, gv);
            let t = self.agent_vfs@;
            s.insert_ensures(pos as int, (agent_id, gv));
            assert forall|i: int, j: int| 0 <= i < j < t.len() implies #[trigger] t[i].0 < #[trigger] t[j].0 by {
                let i2 = if i < pos { i } else { i - 1 };
                let j2 = if j < pos { j } else { j - 1 };
                if i != pos && j != pos {
                    assert(t[i] == s[i2]);
                    assert(t[j] == s[j2]);
                } else if i == pos {
                    assert(t[j] == s[j2]);
                    assert(!(s[j2].0 < agent_id));
                    assert(s[j2].0 != agent_id);
                } else {
                    assert(t[i] == s[i2]);
                }
            }
            assert forall|i: int| 0 <= i < t.len() implies (#[trigger] t[i]).1.wf() by {
                if i < pos {
                    assert(t[i] == s[i]);
                } else if i > pos {
                    assert(t[i] == s[i - 1]);
                }
            }
            assert(self.agents() =~= old(self).agents().insert(agent_id, gv));
        }
        Ok(())
    }

    /// Removes the agent's file system.
    pub fn remove_agent_fs(&mut self, agent_id: u64) -> (r: Result<(), FsError>)
        requires
            old(self).wf(),
        ensures
            final(self).wf(),
            final(self).shared() == old(self).shared(),
            if old(self).agents().dom().contains(agent_id) {
                r is Ok && final(self).agents() == old(self).agents().remove(agent_id)
            } else {
                r is Err && error_is(r->Err_0, (FsErrorKind::NotFound, agent_fs_missing(agent_id))) && final(self).agents()
                    == old(self).agents()
            },
    {
        match self.find_agent(agent_id) {
            None => Err(FsError::NotFound(text_around_number("Agent ", agent_id, " 文件系统不存在"))),
            Some(i) => {
                proof {
                    self.lemma_wf();
                    lemma_remove(self.agent_vfs@, i as int);
                    self.agent_vfs@.remove_ensures(i as int);
                }
                let ghost s = self.agent_vfs@;
                let _ = self.agent_vfs.remove(i);
                proof {
                    let t = self.agent_vfs@;
                    assert forall|a: int, b: int| 0 <= a < b < t.len() implies #[trigger] t[a].0 < #[trigger] t[b].0 by {
                        let a2 = if a < i { a } else { a + 1 };
                        let b2 = if b < i { b } else { b + 1 };
                        assert(t[a] == s[a2]);
                        assert(t[b] == s[b2]);
                    }
                    assert forall|a: int| 0 <= a < t.len() implies (#[trigger] t[a]).1.wf() by {
                        let a2 = if a < i { a } else { a + 1 };
                        assert(t[a] == s[a2]);
                    }
                }
                Ok(())
            },
        }
    }

    /// Takes the file system at position `i` out, leaving an empty one.
    fn take_agent(&mut self, i: usize) -> (r: VirtualFileSystem)
        requires
            old(self).wf(),
            i < old(self).agent_vfs@.len(),
        ensures
            r == old(self).agent_vfs@[i as int].1,
            final(self).agent_vfs@.len() == old(self).agent_vfs@.len(),
            final(self).agent_vfs@ == old(self).agent_vfs@.update(
                i as int,
                (old(self).agent_vfs@[i as int].0, final(self).agent_vfs@[i as int].1),
            ),
            final(self).shared_vfs == old(self).shared_vfs,
    {
        let id = self.agent_vfs[i].0;
        let mut slot = (id, VirtualFileSystem::new(FsType::AgentFS));
        std::mem::swap(&mut slot, &mut self.agent_vfs[i]);
        slot.1
    }

    /// Puts a file system back at position `i`.
    fn put_agent(&mut self, i: usize, v: VirtualFileSystem)
        requires
            i < old(self).agent_vfs@.len(),
        ensures
            final(self).agent_vfs@ == old(self).agent_vfs@.update(i as int, (old(self).agent_vfs@[i as int].0, v)),
            final(self).shared_vfs == old(self).shared_vfs,
    {
        let id = self.agent_vfs[i].0;
        self.agent_vfs.set(i, (id, v));
    }

    proof fn lemma_put_back(&self, before: AgentFileSystem, i: int, v: VirtualFileSystem)
        requires
            before.wf(),
            0 <= i < before.agent_vfs@.len(),
            v.wf(),
            self.agent_vfs@ == before.agent_vfs@.update(i, (before.agent_vfs@[i].0, v)),
            self.shared_vfs == before.shared_vfs,
        ensures
            self.wf(),
            self.agents() == before.agents().insert(before.agent_vfs@[i].0, v),
            self.shared() == before.shared(),
    {
        before.lemma_wf();
        lemma_update(before.agent_vfs@, i, v);
        let s = before.agent_vfs@;
        let t = self.agent_vfs@;
        assert forall|a: int, b: int| 0 <= a < b < t.len() implies #[trigger] t[a].0 < #[trigger] t[b].0 by {
            assert(t[a].0 == s[a].0);
            assert(t[b].0 == s[b].0);
        }
        assert forall|a: int| 0 <= a < t.len() implies (#[trigger] t[a]).1.wf() by {
            if a != i {
                assert(t[a] == s[a]);
            }
        }
    }

    /// Opens a path in the agent's file system.
    pub fn agent_open(&mut self, agent_id: u64, path: &str, flags: OpenFlags) -> (r: Result<FileDescriptor, FsError>)
        requires
            old(self).wf(),
            old(self).agents().dom().contains(agent_id) ==> old(self).agents()[agent_id].spec_next_fd() < u32::MAX
                && old(self).agents()[agent_id].spec_next_inode() < u64::MAX,
        ensures
            final(self).wf(),
            final(self).shared() == old(self).shared(),
            if old(self).agents().dom().contains(agent_id) {
                &&& final(self).agents() == old(self).agents().insert(agent_id, final(self).agents()[agent_id])
                &&& open_post(old(self).agents()[agent_id], path@, flags, r, final(self).agents()[agent_id])
            } else {
                r is Err && error_is(r->Err_0, (FsErrorKind::NotFound, agent_fs_missing(agent_id))) && final(self).agents()
                    == old(self).agents()
            },
    {
        match self.find_agent(agent_id) {
            None => Err(FsError::NotFound(text_around_number("Agent ", agent_id, " 文件系统不存在"))),
            Some(i) => {
                let ghost before = *self;
                let mut v = self.take_agent(i);
                let r = v.open(path, flags);
                let ghost gv = v;
                self.put_agent(i, v);
                proof {
                    assert(self.agent_vfs@ =~= before.agent_vfs@.update(i as int, (before.agent_vfs@[i as int].0, gv)));
                    self.lemma_put_back(before, i as int, gv);
                }
                r
            },
        }
    }

    /// Reads through a descriptor of the agent's file system.
    pub fn agent_read(&mut self, agent_id: u64, fd: FileDescriptor, buf: &mut [u8]) -> (r: Result<usize, FsError>)
        requires
            old(self).wf(),
        ensures
            final(self).wf(),
            final(self).shared() == old(self).shared(),
            if old(self).agents().dom().contains(agent_id) {
                &&& final(self).agents() == old(self).agents().insert(agent_id, final(self).agents()[agent_id])
                &&& read_post(old(self).agents()[agent_id], fd, old(buf)@, r, final(self).agents()[agent_id], final(buf)@)
            } else {
                r is Err && error_is(r->Err_0, (FsErrorKind::NotFound, agent_fs_missing(agent_id))) && final(self).agents()
                    == old(self).agents() && final(buf)@ == old(buf)@
            },
    {
        match self.find_agent(agent_id) {
            None => Err(FsError::NotFound(text_around_number("Agent ", agent_id, " 文件系统不存在"))),
            Some(i) => {
                let ghost before = *self;
                let mut v = self.take_agent(i);
                let r = v.read(fd, buf);
                let ghost gv = v;
                self.put_agent(i, v);
                proof {
                    assert(self.agent_vfs@ =~= before.agent_vfs@.update(i as int, (before.agent_vfs@[i as int].0, gv)));
                    self.lemma_put_back(before, i as int, gv);
                }
                r
            },
        }
    }

    /// Writes through a descriptor of the agent's file system.
    pub fn agent_write(&mut self, agent_id: u64, fd: FileDescriptor, buf: &[u8]) -> (r: Result<usize, FsError>)
        requires
            old(self).wf(),
            old(self).agents().dom().contains(agent_id) ==> crate::fs::vfs::write_fits(
                old(self).agents()[agent_id].fds(),
                old(self).agents()[agent_id].table(),
                fd.0,
                buf@.len(),
            ),
        ensures
            final(self).wf(),
            final(self).shared() == old(self).shared(),
            if old(self).agents().dom().contains(agent_id) {
                &&& final(self).agents() == old(self).agents().insert(agent_id, final(self).agents()[agent_id])
                &&& write_post(old(self).agents()[agent_id], fd, buf@, r, final(self).agents()[agent_id])
            } else {
                r is Err && error_is(r->Err_0, (FsErrorKind::NotFound, agent_fs_missing(agent_id))) && final(self).agents()
                    == old(self).agents()
            },
    {
        match self.find_agent(agent_id) {
            None => Err(FsError::NotFound(text_around_number("Agent ", agent_id, " 文件系统不存在"))),
            Some(i) => {
                let ghost before = *self;
                let mut v = self.take_agent(i);
                let r = v.write(fd, buf);
                let ghost gv = v;
                self.put_agent(i, v);
                proof {
                    assert(self.agent_vfs@ =~= before.agent_vfs@.update(i as int, (before.agent_vfs@[i as int].0, gv)));
                    self.lemma_put_back(before, i as int, gv);
                }
                r
            },
        }
    }

    /// Closes a descriptor of the agent's file system.
    pub fn agent_close(&mut self, agent_id: u64, fd: FileDescriptor) -> (r: Result<(), FsError>)
        requires
            old(self).wf(),
        ensures
            final(self).wf(),
            final(self).shared() == old(self).shared(),
            if old(self).agents().dom().contains(agent_id) {
                &&& final(self).agents() == old(self).agents().insert(agent_id, final(self).agents()[agent_id])
                &&& close_post(old(self).agents()[agent_id], fd, r, final(self).agents()[agent_id])
            } else {
                r is Err && error_is(r->Err_0, (FsErrorKind::NotFound, agent_fs_missing(agent_id))) && final(self).agents()
                    == old(self).agents()
            },
    {
        match self.find_agent(agent_id) {
            None => Err(FsError::NotFound(text_around_number("Agent ", agent_id, " 文件系统不存在"))),
            Some(i) => {
                let ghost before = *self;
                let mut v = self.take_agent(i);
                let r = v.close(fd);
                let ghost gv = v;
                self.put_agent(i, v);
                proof {
                    assert(self.agent_vfs@ =~= before.agent_vfs@.update(i as int, (before.agent_vfs@[i as int].0, gv)));
                    self.lemma_put_back(before, i as int, gv);
                }
                r
            },
        }
    }

    /// Creates a file in the agent's file system.
    pub fn agent_create_file(&mut self, agent_id: u64, path: &str, permissions: FilePermissions) -> (r: Result<u64, FsError>)
        requires
            old(self).wf(),
            old(self).agents().dom().contains(agent_id) ==> old(self).agents()[agent_id].spec_next_inode() < u64::MAX,
        ensures
            final(self).wf(),
            final(self).shared() == old(self).shared(),
            if old(self).agents().dom().contains(agent_id) {
                &&& final(self).agents() == old(self).agents().insert(agent_id, final(self).agents()[agent_id])
                &&& created_post(
                    old(self).agents()[agent_id],
                    path@,
                    FileType::Regular,
                    permissions,
                    r,
                    final(self).agents()[agent_id],
                )
            } else {
                r is Err && error_is(r->Err_0, (FsErrorKind::NotFound, agent_fs_missing(agent_id))) && final(self).agents()
                    == old(self).agents()
            },
    {
        match self.find_agent(agent_id) {
            None => Err(FsError::NotFound(text_around_number("Agent ", agent_id, " 文件系统不存在"))),
            Some(i) => {
                let ghost before = *self;
                let mut v = self.take_agent(i);
                let r = v.create_file(path, permissions);
                let ghost gv = v;
                self.put_agent(i, v);
                proof {
                    assert(self.agent_vfs@ =~= before.agent_vfs@.update(i as int, (before.agent_vfs@[i as int].0, gv)));
                    self.lemma_put_back(before, i as int, gv);
                }
                r
            },
        }
    }

    /// Creates a directory in the agent's file system.
    pub fn agent_create_dir(&mut self, agent_id: u64, path: &str, permissions: FilePermissions) -> (r: Result<u64, FsError>)
        requires
            old(self).wf(),
            old(self).agents().dom().contains(agent_id) ==> old(self).agents()[agent_id].spec_next_inode() < u64::MAX,
        ensures
            final(self).wf(),
            final(self).shared() == old(self).shared(),
            if old(self).agents().dom().contains(agent_id) {
                &&& final(self).agents() == old(self).agents().insert(agent_id, final(self).agents()[agent_id])
                &&& created_post(
                    old(self).agents()[agent_id],
                    path@,
                    FileType::Directory,
                    permissions,
                    r,
                    final(self).agents()[agent_id],
                )
            } else {
                r is Err && error_is(r->Err_0, (FsErrorKind::NotFound, agent_fs_missing(agent_id))) && final(self).agents()
                    == old(self).agents()
            },
    {
        match self.find_agent(agent_id) {
            None => Err(FsError::NotFound(text_around_number("Agent ", agent_id, " 文件系统不存在"))),
            Some(i) => {
                let ghost before = *self;
                let mut v = self.take_agent(i);
                let r = v.create_dir(path, permissions);
                let ghost gv = v;
                self.put_agent(i, v);
                proof {
                    assert(self.agent_vfs@ =~= before.agent_vfs@.update(i as int, (before.agent_vfs@[i as int].0, gv)));
                    self.lemma_put_back(before, i as int, gv);
                }
                r
            },
        }
    }

    /// Lists a directory of the agent's file system.
    pub fn agent_list_dir(&self, agent_id: u64, path: &str) -> (r: Result<Vec<DirEntry>, FsError>)
        requires
            self.wf(),
        ensures
            if self.agents().dom().contains(agent_id) {
                list_post(self.agents()[agent_id], path@, r)
            } else {
                r is Err && error_is(r->Err_0, (FsErrorKind::NotFound, agent_fs_missing(agent_id)))
            },
    {
        match self.find_agent(agent_id) {
            None => Err(FsError::NotFound(text_around_number("Agent ", agent_id, " 文件系统不存在"))),
            Some(i) => self.agent_vfs[i].1.list_dir(path),
        }
    }

    /// Opens a path in the shared area.
    pub fn shared_open(&mut self, path: &str, flags: OpenFlags) -> (r: Result<FileDescriptor, FsError>)
        requires
            old(self).wf(),
            old(self).shared().spec_next_fd() < u32::MAX,
            old(self).shared().spec_next_inode() < u64::MAX,
        ensures
            final(self).wf(),
            final(self).agents() == old(self).agents(),
            open_post(old(self).shared(), path@, flags, r, final(self).shared()),
    {
        self.shared_vfs.open(path, flags)
    }

    /// Writes through a descriptor of the shared area.
    pub fn shared_write(&mut self, fd: FileDescriptor, buf: &[u8]) -> (r: Result<usize, FsError>)
        requires
            old(self).wf(),
            crate::fs::vfs::write_fits(old(self).shared().fds(), old(self).shared().table(), fd.0, buf@.len()),
        ensures
            final(self).wf(),
            final(self).agents() == old(self).agents(),
            write_post(old(self).shared(), fd, buf@, r, final(self).shared()),
    {
        self.shared_vfs.write(fd, buf)
    }

    /// Reads through a descriptor of the shared area.
    pub fn shared_read(&mut self, fd: FileDescriptor, buf: &mut [u8]) -> (r: Result<usize, FsError>)
        requires
            old(self).wf(),
        ensures
            final(self).wf(),
            final(self).agents() == old(self).agents(),
            read_post(old(self).shared(), fd, old(buf)@, r, final(self).shared(), final(buf)@),
    {
        self.shared_vfs.read(fd, buf)
    }

    /// Closes a descriptor of the shared area.
    pub fn shared_close(&mut self, fd: FileDescriptor) -> (r: Result<(), FsError>)
        requires
            old(self).wf(),
        ensures
            final(self).wf(),
            final(self).agents() == old(self).agents(),
            close_post(old(self).shared(), fd, r, final(self).shared()),
    {
        self.shared_vfs.close(fd)
    }

    /// Creates a file in the shared area.
    pub fn shared_create_file(&mut self, path: &str, permissions: FilePermissions) -> (r: Result<u64, FsError>)
        requires
            old(self).wf(),
            old(self).shared().spec_next_inode() < u64::MAX,
        ensures
            final(self).wf(),
            final(self).agents() == old(self).agents(),
            created_post(old(self).shared(), path@, FileType::Regular, permissions, r, final(self).shared()),
    {
        self.shared_vfs.create_file(path, permissions)
    }

    /// Lists a directory of the shared area.
    pub fn shared_list_dir(&self, path: &str) -> (r: Result<Vec<DirEntry>, FsError>)
        ensures
            list_post(self.shared(), path@, r),
    {
        self.shared_vfs.list_dir(path)
    }

    /// The agents that have a file system, in ascending order.
    pub fn list_agents(&self) -> (r: Vec<u64>)
        requires
            self.wf(),
        ensures
            r@.to_set() == self.agents().dom(),
            forall|i: int, j: int| 0 <= i < j < r@.len() ==> #[trigger] r@[i] < #[trigger] r@[j],
    {
        let mut r: Vec<u64> = Vec::new();
        let mut i: usize = 0;
        while i < self.agent_vfs.len()
            invariant
                i <= self.agent_vfs@.len(),
                r@ == key_seq(self.agent_vfs@).take(i as int),
            decreases self.agent_vfs@.len() - i,
        {
            r.push(self.agent_vfs[i].0);
            assert(key_seq(self.agent_vfs@).take(i + 1) =~= key_seq(self.agent_vfs@).take(i as int).push(
                self.agent_vfs@[i as int].0,
            ));
            i += 1;
        }
        proof {
            self.lemma_wf();
            crate::keyed::lemma_len(self.agent_vfs@);
            assert(key_seq(self.agent_vfs@).take(i as int) =~= key_seq(self.agent_vfs@));
        }
        r
    }
}

} // verus!
