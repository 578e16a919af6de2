//! The mathematical model of the file system: inodes as values, the inode
//! table as a sequence indexed by inode number, and path resolution.
use vstd::prelude::*;
use crate::fs::types::{DirEntry, FileType, FilePermissions, INode, FsErrorKind, FsFault, OpenFile, inode_missing};
use crate::fs::path::{components, text_bytes};

verus! {

/// A directory entry as a value.
pub struct EntryModel {
    pub name: Seq<char>,
    pub file_type: FileType,
    pub inode: u64,
}

/// An inode as a value.
pub struct InodeModel {
    pub id: u64,
    pub file_type: FileType,
    pub size: u64,
    pub permissions: FilePermissions,
    pub data: Seq<u8>,
    pub children: Seq<EntryModel>,
    pub created_at: u64,
    pub modified_at: u64,
    pub accessed_at: u64,
    pub parent: Option<u64>,
}

impl View for DirEntry {
    type V = EntryModel;

    open spec fn view(&self) -> EntryModel {
        EntryModel { name: self.name@, file_type: self.file_type, inode: self.inode }
    }
}

/// The entries of a directory as values.
pub open spec fn entries_model(v: Seq<DirEntry>) -> Seq<EntryModel> {
    v.map_values(|e: DirEntry| e@)
}

impl View for INode {
    type V = InodeModel;

    open spec fn view(&self) -> InodeModel {
        InodeModel {
            id: self.id,
            file_type: self.file_type,
            size: self.size,
            permissions: self.permissions,
            data: self.data@,
            children: entries_model(self.children@),
            created_at: self.created_at,
            modified_at: self.modified_at,
            accessed_at: self.accessed_at,
            parent: self.parent,
        }
    }
}

pub open spec fn slot_model(o: Option<INode>) -> Option<InodeModel> {
    match o {
        Some(n) => Some(n@),
        None => None,
    }
}

/// The inode table as values.
pub open spec fn table_model(v: Seq<Option<INode>>) -> Seq<Option<InodeModel>> {
    v.map_values(|o: Option<INode>| slot_model(o))
}

/// The inode with number `id`, if any.
pub open spec fn table_get(t: Seq<Option<InodeModel>>, id: u64) -> Option<InodeModel> {
    if id < t.len() {
        t[id as int]
    } else {
        None
    }
}

/// The table with `m` stored as inode `id` (replacing, or appending at the end).
pub open spec fn table_store(t: Seq<Option<InodeModel>>, id: u64, m: InodeModel) -> Seq<Option<InodeModel>> {
    if id < t.len() {
        t.update(id as int, Some(m))
    } else {
        t.push(Some(m))
    }
}

/// The table without inode `id`.
pub open spec fn table_remove(t: Seq<Option<InodeModel>>, id: u64) -> Seq<Option<InodeModel>> {
    if id < t.len() {
        t.update(id as int, None)
    } else {
        t
    }
}

/// The table with inode `id` (if present) changed by `f`.
pub open spec fn table_modify(
    t: Seq<Option<InodeModel>>,
    id: u64,
    f: spec_fn(InodeModel) -> InodeModel,
) -> Seq<Option<InodeModel>> {
    if id < t.len() && t[id as int] is Some {
        t.update(id as int, Some(f(t[id as int]->0)))
    } else {
        t
    }
}

/// A fresh inode.
pub open spec fn new_inode(id: u64, file_type: FileType, permissions: FilePermissions, parent: Option<u64>) -> InodeModel {
    InodeModel {
        id,
        file_type,
        size: 0,
        permissions,
        data: Seq::empty(),
        children: Seq::empty(),
        created_at: 0,
        modified_at: 0,
        accessed_at: 0,
        parent,
    }
}

/// Some entry has the name.
pub open spec fn has_child(ch: Seq<EntryModel>, name: Seq<char>) -> bool {
    exists|j: int| 0 <= j < ch.len() && #[trigger] ch[j].name == name
}

/// The first entry with the name.
pub open spec fn first_child(ch: Seq<EntryModel>, name: Seq<char>) -> int {
    choose|j: int|
        0 <= j < ch.len() && #[trigger] ch[j].name == name && forall|k: int|
            0 <= k < j ==> #[trigger] ch[k].name != name
}

pub proof fn lemma_first_child(ch: Seq<EntryModel>, name: Seq<char>, j: int)
    requires
        0 <= j < ch.len(),
        ch[j].name == name,
        forall|k: int| 0 <= k < j ==> #[trigger] ch[k].name != name,
    ensures
        has_child(ch, name),
        first_child(ch, name) == j,
{
    assert(has_child(ch, name));
    let f = first_child(ch, name);
    assert(0 <= f < ch.len() && ch[f].name == name && forall|k: int|
        0 <= k < f ==> #[trigger] ch[k].name != name);
    if f < j {
        assert(ch[f].name != name);
    }
    if j < f {
        assert(ch[j].name != name);
    }
}

/// Walks the components from inode `cur`.
pub open spec fn walk(t: Seq<Option<InodeModel>>, cur: u64, comps: Seq<Seq<char>>) -> Result<u64, FsFault>
    decreases comps.len(),
{
    if comps.len() == 0 {
        Ok(cur)
    } else if text_bytes(comps[0]) > 255 {
        Err((FsErrorKind::NameTooLong, comps[0]))
    } else {
        match table_get(t, cur) {
            None => Err((FsErrorKind::NotFound, inode_missing(cur))),
            Some(n) => if n.file_type != FileType::Directory {
                Err((FsErrorKind::NotADirectory, comps[0] + " 不是目录"@))
            } else if !has_child(n.children, comps[0]) {
                Err((FsErrorKind::NotFound, comps[0] + " 未找到"@))
            } else {
                walk(t, n.children[first_child(n.children, comps[0])].inode, comps.drop_first())
            },
        }
    }
}

/// The inode a path names, from the root: an empty path is invalid.
pub open spec fn resolve(t: Seq<Option<InodeModel>>, root: u64, p: Seq<char>) -> Result<u64, FsFault> {
    if p.len() == 0 {
        Err((FsErrorKind::InvalidPath, "路径为空"@))
    } else {
        walk(t, root, components(p))
    }
}

/// The contents after writing `buf` at `off`: the gap past the end, if any,
/// reads as zeros.
pub open spec fn splice(data: Seq<u8>, off: int, buf: Seq<u8>) -> Seq<u8> {
    let len = if off + buf.len() > data.len() {
        off + buf.len()
    } else {
        data.len() as int
    };
    Seq::new(
        len as nat,
        |i: int|
            if off <= i < off + buf.len() {
                buf[i - off]
            } else if i < data.len() {
                data[i]
            } else {
                0u8
            },
    )
}

/// The open file with number `fd`, if any.
pub open spec fn fd_get(f: Seq<Option<OpenFile>>, fd: u32) -> Option<OpenFile> {
    if fd < f.len() {
        f[fd as int]
    } else {
        None
    }
}

/// Some open file refers to the inode.
pub open spec fn inode_in_use(f: Seq<Option<OpenFile>>, id: u64) -> bool {
    exists|i: int| 0 <= i < f.len() && #[trigger] f[i] is Some && f[i]->0.inode_id == id
}

/// Number of present slots.
pub open spec fn count_some<T>(s: Seq<Option<T>>) -> nat
    decreases s.len(),
{
    if s.len() == 0 {
        0
    } else {
        count_some(s.drop_last()) + if s.last() is Some {
            1nat
        } else {
            0nat
        }
    }
}

/// Total bytes of file contents.
pub open spec fn total_data(t: Seq<Option<InodeModel>>) -> nat
    decreases t.len(),
{
    if t.len() == 0 {
        0
    } else {
        total_data(t.drop_last()) + match t.last() {
            Some(n) => n.data.len(),
            None => 0,
        }
    }
}

// ---------------------------------------------------------------------------
// Laws of the model
// ---------------------------------------------------------------------------

/// Reading back the written range gives exactly what was written, and the
/// bytes outside it keep their value (or read as zero past the old end).
pub proof fn law_splice_reads_back(data: Seq<u8>, off: int, buf: Seq<u8>)
    requires
        0 <= off,
    ensures
        splice(data, off, buf).subrange(off, off + buf.len()) == buf,
        splice(data, off, buf).len() >= off + buf.len(),
        splice(data, off, buf).len() >= data.len(),
        forall|i: int| 0 <= i < off && i < data.len() ==> splice(data, off, buf)[i] == data[i],
        forall|i: int| off + buf.len() <= i < data.len() ==> splice(data, off, buf)[i] == data[i],
{
    assert(splice(data, off, buf).subrange(off, off + buf.len()) =~= buf);
}

/// Appending twice is appending the concatenation.
pub proof fn law_append_twice(data: Seq<u8>, a: Seq<u8>, b: Seq<u8>)
    ensures
        splice(splice(data, data.len() as int, a), (data.len() + a.len()) as int, b) == data + a + b,
{
    assert(splice(splice(data, data.len() as int, a), (data.len() + a.len()) as int, b) =~= data + a + b);
}

/// Resolving a path whose only component is a child of the root finds that
/// child.
pub proof fn law_resolve_child_of_root(t: Seq<Option<InodeModel>>, root: u64, name: Seq<char>, p: Seq<char>)
    requires
        components(p) == seq![name],
        p.len() > 0,
        text_bytes(name) <= 255,
        table_get(t, root) is Some,
        table_get(t, root)->0.file_type == FileType::Directory,
        has_child(table_get(t, root)->0.children, name),
    ensures
        resolve(t, root, p) == Ok::<u64, FsFault>(
            table_get(t, root)->0.children[first_child(table_get(t, root)->0.children, name)].inode,
        ),
{
    let comps = components(p);
    assert(comps.drop_first() =~= Seq::<Seq<char>>::empty());
    assert(comps[0] == name);
    let n = table_get(t, root)->0;
    let child = n.children[first_child(n.children, name)].inode;
    assert(walk(t, child, comps.drop_first()) == Ok::<u64, FsFault>(child));
}

} // verus!
