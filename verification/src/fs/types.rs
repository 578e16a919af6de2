//! File-system value types: kinds, permissions, flags, inodes and errors.
use vstd::prelude::*;
use vstd::std_specs::ops::{BitAndSpecImpl, BitOrSpecImpl, NotSpecImpl};
use crate::text::{decimal, push_decimal};

verus! {

/// Kind of file system.
#[derive(Debug, Clone, Copy, PartialEq, Eq, Structural)]
pub enum FsType {
    AgentFS,
    TempFS,
    MemFS,
    Fat32,
    Ext2,
}

impl FsType {
    /// The display name of the file-system kind.
    pub fn display_text(&self) -> (r: String)
        ensures
            r@ == fs_type_text(*self)@,
    {
        match self {
            FsType::AgentFS => String::from_str("AgentFS"),
            FsType::TempFS => String::from_str("TempFS"),
            FsType::MemFS => String::from_str("MemFS"),
            FsType::Fat32 => String::from_str("FAT32"),
            FsType::Ext2 => String::from_str("ext2"),
        }
    }
}

pub open spec fn fs_type_text(t: FsType) -> &'static str {
    match t {
        FsType::AgentFS => "AgentFS",
        FsType::TempFS => "TempFS",
        FsType::MemFS => "MemFS",
        FsType::Fat32 => "FAT32",
        FsType::Ext2 => "ext2",
    }
}

/// Kind of file.
#[derive(Debug, Clone, Copy, PartialEq, Eq, Structural)]
pub enum FileType {
    Regular,
    Directory,
    SymLink,
    CharDevice,
    BlockDevice,
    FIFO,
    Socket,
}

pub open spec fn file_type_text(t: FileType) -> &'static str {
    match t {
        FileType::Regular => "普通文件",
        FileType::Directory => "目录",
        FileType::SymLink => "符号链接",
        FileType::CharDevice => "字符设备",
        FileType::BlockDevice => "块设备",
        FileType::FIFO => "FIFO",
        FileType::Socket => "套接字",
    }
}

impl FileType {
    /// The display name of the file kind.
    pub fn display_text(&self) -> (r: String)
        ensures
            r@ == file_type_text(*self)@,
    {
        match self {
            FileType::Regular => String::from_str("普通文件"),
            FileType::Directory => String::from_str("目录"),
            FileType::SymLink => String::from_str("符号链接"),
            FileType::CharDevice => String::from_str("字符设备"),
            FileType::BlockDevice => String::from_str("块设备"),
            FileType::FIFO => String::from_str("FIFO"),
            FileType::Socket => String::from_str("套接字"),
        }
    }
}

/// Unix-style permission bits (the low nine bits).
#[derive(Debug, Clone, Copy, PartialEq, Eq, Structural)]
pub struct FilePermissions(pub u16);

impl FilePermissions {
    pub const OWNER_READ: u16 = 0o400;
    pub const OWNER_WRITE: u16 = 0o200;
    pub const OWNER_EXEC: u16 = 0o100;
    pub const GROUP_READ: u16 = 0o040;
    pub const GROUP_WRITE: u16 = 0o020;
    pub const GROUP_EXEC: u16 = 0o010;
    pub const OTHER_READ: u16 = 0o004;
    pub const OTHER_WRITE: u16 = 0o002;
    pub const OTHER_EXEC: u16 = 0o001;

    /// Permissions from a mode, keeping only the nine permission bits.
    pub fn new(mode: u16) -> (r: FilePermissions)
        ensures
            r.0 == mode & 0o777,
    {
        FilePermissions(mode & 0o777)
    }

    /// Someone may read.
    pub fn is_readable(&self) -> (r: bool)
        ensures
            r == (self.0 & 0o444 != 0),
    {
        (self.0 & 0o444) != 0
    }

    /// Someone may write.
    pub fn is_writable(&self) -> (r: bool)
        ensures
            r == (self.0 & 0o222 != 0),
    {
        (self.0 & 0o222) != 0
    }

    /// Someone may execute.
    pub fn is_executable(&self) -> (r: bool)
        ensures
            r == (self.0 & 0o111 != 0),
    {
        (self.0 & 0o111) != 0
    }

    /// The raw mode.
    pub fn mode(&self) -> (r: u16)
        ensures
            r == self.0,
    {
        self.0
    }

    /// 0644.
    pub fn default_file() -> (r: FilePermissions)
        ensures
            r.0 == 0o644,
    {
        FilePermissions(0o644)
    }

    /// 0755.
    pub fn default_dir() -> (r: FilePermissions)
        ensures
            r.0 == 0o755,
    {
        FilePermissions(0o755)
    }
}

impl Default for FilePermissions {
    fn default() -> (r: FilePermissions)
        ensures
            r.0 == 0o644,
    {
        FilePermissions::default_file()
    }
}

impl std::ops::BitAnd for FilePermissions {
    type Output = FilePermissions;

    fn bitand(self, rhs: FilePermissions) -> (r: FilePermissions) {
        FilePermissions(self.0 & rhs.0)
    }
}

impl std::ops::BitOr for FilePermissions {
    type Output = FilePermissions;

    fn bitor(self, rhs: FilePermissions) -> (r: FilePermissions) {
        FilePermissions(self.0 | rhs.0)
    }
}


impl BitAndSpecImpl for FilePermissions {
    open spec fn obeys_bitand_spec() -> bool {
        true
    }

    open spec fn bitand_req(self, rhs: FilePermissions) -> bool {
        true
    }

    open spec fn bitand_spec(self, rhs: FilePermissions) -> FilePermissions {
        FilePermissions(self.0 & rhs.0)
    }
}

impl BitOrSpecImpl for FilePermissions {
    open spec fn obeys_bitor_spec() -> bool {
        true
    }

    open spec fn bitor_req(self, rhs: FilePermissions) -> bool {
        true
    }

    open spec fn bitor_spec(self, rhs: FilePermissions) -> FilePermissions {
        FilePermissions(self.0 | rhs.0)
    }
}

impl NotSpecImpl for FilePermissions {
    open spec fn obeys_not_spec() -> bool {
        true
    }

    open spec fn not_req(self) -> bool {
        true
    }

    open spec fn not_spec(self) -> FilePermissions {
        FilePermissions(!self.0 & 0o777)
    }
}

impl std::ops::BitAndAssign for FilePermissions {
    fn bitand_assign(&mut self, rhs: FilePermissions) {
        self.0 = self.0 & rhs.0;
    }
}

impl std::ops::BitOrAssign for FilePermissions {
    fn bitor_assign(&mut self, rhs: FilePermissions) {
        self.0 = self.0 | rhs.0;
    }
}

impl std::ops::Not for FilePermissions {
    type Output = FilePermissions;

    fn not(self) -> (r: FilePermissions) {
        FilePermissions(!self.0 & 0o777)
    }
}

impl FilePermissions {
    /// Bitwise intersection of two permission sets.
    pub fn intersect(self, rhs: FilePermissions) -> (r: FilePermissions)
        ensures
            r.0 == self.0 & rhs.0,
    {
        FilePermissions(self.0 & rhs.0)
    }

    /// Bitwise union of two permission sets.
    pub fn combine(self, rhs: FilePermissions) -> (r: FilePermissions)
        ensures
            r.0 == self.0 | rhs.0,
    {
        FilePermissions(self.0 | rhs.0)
    }

    /// The permission bits not in this set.
    pub fn complement(self) -> (r: FilePermissions)
        ensures
            r.0 == !self.0 & 0o777,
    {
        FilePermissions(!self.0 & 0o777)
    }
}

/// Attributes of a file.
#[derive(Debug, Clone)]
pub struct FileAttr {
    pub file_type: FileType,
    pub size: u64,
    pub permissions: FilePermissions,
    pub created_at: u64,
    pub modified_at: u64,
    pub accessed_at: u64,
    pub uid: u32,
    pub gid: u32,
    pub nlinks: u32,
}

/// An entry of a directory.
#[derive(Debug, Clone)]
pub struct DirEntry {
    pub name: String,
    pub file_type: FileType,
    pub inode: u64,
}

/// A copy of a directory entry.
pub fn copy_entry(e: &DirEntry) -> (r: DirEntry)
    ensures
        r.name@ == e.name@,
        r.file_type == e.file_type,
        r.inode == e.inode,
{
    DirEntry { name: e.name.clone(), file_type: e.file_type, inode: e.inode }
}

/// Flags of an open call.
#[derive(Debug, Clone, Copy, PartialEq, Eq, Structural)]
pub struct OpenFlags(pub u32);

impl OpenFlags {
    /// Open for reading.
    #[allow(non_snake_case)]
    pub fn READ() -> (r: OpenFlags)
        ensures
            r.0 == 1,
    {
        OpenFlags(1)
    }

    /// Open for writing.
    #[allow(non_snake_case)]
    pub fn WRITE() -> (r: OpenFlags)
        ensures
            r.0 == 2,
    {
        OpenFlags(2)
    }

    /// Writes go to the end.
    #[allow(non_snake_case)]
    pub fn APPEND() -> (r: OpenFlags)
        ensures
            r.0 == 4,
    {
        OpenFlags(4)
    }

    /// Create the file if it is missing.
    #[allow(non_snake_case)]
    pub fn CREATE() -> (r: OpenFlags)
        ensures
            r.0 == 8,
    {
        OpenFlags(8)
    }

    /// Empty the file on open.
    #[allow(non_snake_case)]
    pub fn TRUNCATE() -> (r: OpenFlags)
        ensures
            r.0 == 16,
    {
        OpenFlags(16)
    }

    /// Exclusive creation.
    #[allow(non_snake_case)]
    pub fn EXCLUSIVE() -> (r: OpenFlags)
        ensures
            r.0 == 32,
    {
        OpenFlags(32)
    }

    /// The path may name a directory.
    #[allow(non_snake_case)]
    pub fn DIRECTORY() -> (r: OpenFlags)
        ensures
            r.0 == 64,
    {
        OpenFlags(64)
    }

    /// Open for reading and writing.
    #[allow(non_snake_case)]
    pub fn READ_WRITE() -> (r: OpenFlags)
        ensures
            r.0 == 3,
    {
        OpenFlags(3)
    }


    /// The read bit is set.
    pub fn is_readable(&self) -> (r: bool)
        ensures
            r == (self.0 & 1 != 0),
    {
        (self.0 & 1) != 0
    }

    /// The write or append bit is set.
    pub fn is_writable(&self) -> (r: bool)
        ensures
            r == (self.0 & 2 != 0 || self.0 & 4 != 0),
    {
        (self.0 & 2) != 0 || (self.0 & 4) != 0
    }

    /// Some bit of `other` is set.
    pub fn contains(&self, other: OpenFlags) -> (r: bool)
        ensures
            r == (self.0 & other.0 != 0),
    {
        (self.0 & other.0) != 0
    }

    /// Both sets of bits.
    pub fn union(self, rhs: OpenFlags) -> (r: OpenFlags)
        ensures
            r.0 == self.0 | rhs.0,
    {
        OpenFlags(self.0 | rhs.0)
    }
}

impl std::ops::BitOr for OpenFlags {
    type Output = OpenFlags;

    fn bitor(self, rhs: OpenFlags) -> (r: OpenFlags) {
        OpenFlags(self.0 | rhs.0)
    }
}


impl BitOrSpecImpl for OpenFlags {
    open spec fn obeys_bitor_spec() -> bool {
        true
    }

    open spec fn bitor_req(self, rhs: OpenFlags) -> bool {
        true
    }

    open spec fn bitor_spec(self, rhs: OpenFlags) -> OpenFlags {
        OpenFlags(self.0 | rhs.0)
    }
}

/// Target of a seek.
#[derive(Debug, Clone, Copy, PartialEq, Eq, Structural)]
pub enum SeekFrom {
    Start(u64),
    Current(i64),
    End(i64),
}

/// A node of the file system.
#[derive(Debug, Clone)]
pub struct INode {
    pub id: u64,
    pub file_type: FileType,
    pub size: u64,
    pub permissions: FilePermissions,
    /// Contents of a regular file.
    pub data: Vec<u8>,
    /// Entries of a directory.
    pub children: Vec<DirEntry>,
    pub created_at: u64,
    pub modified_at: u64,
    pub accessed_at: u64,
    pub parent: Option<u64>,
}

/// A fresh node of the given kind: empty, with no parent and all times zero.
pub open spec fn fresh_inode(n: INode, id: u64, file_type: FileType, permissions: FilePermissions) -> bool {
    &&& n.id == id
    &&& n.file_type == file_type
    &&& n.size == 0
    &&& n.permissions == permissions
    &&& n.data@.len() == 0
    &&& n.children@.len() == 0
    &&& n.created_at == 0
    &&& n.modified_at == 0
    &&& n.accessed_at == 0
    &&& n.parent.is_none()
}

impl INode {
    /// An empty node.
    pub fn new(id: u64, file_type: FileType, permissions: FilePermissions) -> (r: INode)
        ensures
            fresh_inode(r, id, file_type, permissions),
    {
        INode {
            id,
            file_type,
            size: 0,
            permissions,
            data: Vec::new(),
            children: Vec::new(),
            created_at: 0,
            modified_at: 0,
            accessed_at: 0,
            parent: None,
        }
    }

    /// An empty directory node.
    pub fn new_dir(id: u64, permissions: FilePermissions) -> (r: INode)
        ensures
            fresh_inode(r, id, FileType::Directory, permissions),
    {
        INode::new(id, FileType::Directory, permissions)
    }
}

/// A file descriptor number.
#[derive(Debug, Clone, Copy, PartialEq, Eq, Hash, Structural)]
pub struct FileDescriptor(pub u32);

/// An open file.
#[derive(Debug, Clone, Copy)]
pub struct OpenFile {
    pub inode_id: u64,
    pub offset: u64,
    pub flags: OpenFlags,
    pub is_readable: bool,
    pub is_writable: bool,
}

/// File-system errors.
#[derive(Debug, Clone, PartialEq, Eq)]
pub enum FsError {
    NotFound(String),
    AlreadyExists(String),
    PermissionDenied(String),
    NotADirectory(String),
    IsADirectory(String),
    DirectoryNotEmpty(String),
    NoSpace,
    InvalidPath(String),
    NotOpen(FileDescriptor),
    InvalidDescriptor(FileDescriptor),
    ReadOnly,
    NameTooLong(String),
    TooManyOpenFiles,
    IoError(String),
    NotSupported(String),
    InvalidOffset,
}

/// The kind of an error, without its message.
#[derive(Debug, Clone, Copy, PartialEq, Eq, Structural)]
pub enum FsErrorKind {
    NotFound,
    AlreadyExists,
    PermissionDenied,
    NotADirectory,
    IsADirectory,
    DirectoryNotEmpty,
    NoSpace,
    InvalidPath,
    NotOpen,
    InvalidDescriptor,
    ReadOnly,
    NameTooLong,
    TooManyOpenFiles,
    IoError,
    NotSupported,
    InvalidOffset,
}

pub open spec fn error_kind(e: FsError) -> FsErrorKind {
    match e {
        FsError::NotFound(_) => FsErrorKind::NotFound,
        FsError::AlreadyExists(_) => FsErrorKind::AlreadyExists,
        FsError::PermissionDenied(_) => FsErrorKind::PermissionDenied,
        FsError::NotADirectory(_) => FsErrorKind::NotADirectory,
        FsError::IsADirectory(_) => FsErrorKind::IsADirectory,
        FsError::DirectoryNotEmpty(_) => FsErrorKind::DirectoryNotEmpty,
        FsError::NoSpace => FsErrorKind::NoSpace,
        FsError::InvalidPath(_) => FsErrorKind::InvalidPath,
        FsError::NotOpen(_) => FsErrorKind::NotOpen,
        FsError::InvalidDescriptor(_) => FsErrorKind::InvalidDescriptor,
        FsError::ReadOnly => FsErrorKind::ReadOnly,
        FsError::NameTooLong(_) => FsErrorKind::NameTooLong,
        FsError::TooManyOpenFiles => FsErrorKind::TooManyOpenFiles,
        FsError::IoError(_) => FsErrorKind::IoError,
        FsError::NotSupported(_) => FsErrorKind::NotSupported,
        FsError::InvalidOffset => FsErrorKind::InvalidOffset,
    }
}

/// What the model says of an error: its kind and its text.
pub type FsFault = (FsErrorKind, Seq<char>);

/// The text an error carries: its message, the descriptor's number for the
/// descriptor errors, nothing for the kinds that carry nothing.
pub open spec fn error_text(e: FsError) -> Seq<char> {
    match e {
        FsError::NotFound(s) => s@,
        FsError::AlreadyExists(s) => s@,
        FsError::PermissionDenied(s) => s@,
        FsError::NotADirectory(s) => s@,
        FsError::IsADirectory(s) => s@,
        FsError::DirectoryNotEmpty(s) => s@,
        FsError::InvalidPath(s) => s@,
        FsError::NameTooLong(s) => s@,
        FsError::IoError(s) => s@,
        FsError::NotSupported(s) => s@,
        FsError::NotOpen(fd) => decimal(fd.0 as nat),
        FsError::InvalidDescriptor(fd) => decimal(fd.0 as nat),
        _ => Seq::empty(),
    }
}

/// The error is of the fault's kind and carries its text.
pub open spec fn error_is(e: FsError, f: FsFault) -> bool {
    error_kind(e) == f.0 && error_text(e) == f.1
}

/// The text of a missing inode.
pub open spec fn inode_missing(id: u64) -> Seq<char> {
    "INode "@ + decimal(id as nat) + " 不存在"@
}

/// The text of a missing parent directory inode.
pub open spec fn parent_missing(id: u64) -> Seq<char> {
    "父目录 INode "@ + decimal(id as nat) + " 不存在"@
}

/// The human-readable text of an error.
pub open spec fn fs_error_text(e: FsError) -> Seq<char> {
    match e {
        FsError::NotFound(s) => "未找到: "@ + s@,
        FsError::AlreadyExists(s) => "已存在: "@ + s@,
        FsError::PermissionDenied(s) => "权限不足: "@ + s@,
        FsError::NotADirectory(s) => "不是目录: "@ + s@,
        FsError::IsADirectory(s) => "是目录: "@ + s@,
        FsError::DirectoryNotEmpty(s) => "目录非空: "@ + s@,
        FsError::NoSpace => "空间不足"@,
        FsError::InvalidPath(s) => "无效路径: "@ + s@,
        FsError::NotOpen(fd) => "文件未打开: fd="@ + decimal(fd.0 as nat),
        FsError::InvalidDescriptor(fd) => "无效描述符: fd="@ + decimal(fd.0 as nat),
        FsError::ReadOnly => "只读文件系统"@,
        FsError::NameTooLong(s) => "文件名过长: "@ + s@,
        FsError::TooManyOpenFiles => "打开文件过多"@,
        FsError::IoError(s) => "I/O 错误: "@ + s@,
        FsError::NotSupported(s) => "不支持的操作: "@ + s@,
        FsError::InvalidOffset => "无效偏移量"@,
    }
}

fn prefixed(prefix: &str, s: &String) -> (r: String)
    ensures
        r@ == prefix@ + s@,
{
    let mut r = String::from_str(prefix);
    r.append(s.as_str());
    r
}

impl FsError {
    /// The human-readable text of the error.
    pub fn message(&self) -> (r: String)
        ensures
            r@ == fs_error_text(*self),
    {
        match self {
            FsError::NotFound(s) => prefixed("未找到: ", s),
            FsError::AlreadyExists(s) => prefixed("已存在: ", s),
            FsError::PermissionDenied(s) => prefixed("权限不足: ", s),
            FsError::NotADirectory(s) => prefixed("不是目录: ", s),
            FsError::IsADirectory(s) => prefixed("是目录: ", s),
            FsError::DirectoryNotEmpty(s) => prefixed("目录非空: ", s),
            FsError::NoSpace => String::from_str("空间不足"),
            FsError::InvalidPath(s) => prefixed("无效路径: ", s),
            FsError::NotOpen(fd) => {
                let mut r = String::from_str("文件未打开: fd=");
                push_decimal(&mut r, fd.0 as u64);
                r
            },
            FsError::InvalidDescriptor(fd) => {
                let mut r = String::from_str("无效描述符: fd=");
                push_decimal(&mut r, fd.0 as u64);
                r
            },
            FsError::ReadOnly => String::from_str("只读文件系统"),
            FsError::NameTooLong(s) => prefixed("文件名过长: ", s),
            FsError::TooManyOpenFiles => String::from_str("打开文件过多"),
            FsError::IoError(s) => prefixed("I/O 错误: ", s),
            FsError::NotSupported(s) => prefixed("不支持的操作: ", s),
            FsError::InvalidOffset => String::from_str("无效偏移量"),
        }
    }
}

/// Usage figures of a file system.
#[derive(Debug, Clone)]
pub struct FsStats {
    pub total_inodes: u64,
    pub used_inodes: u64,
    pub total_size: u64,
    pub used_size: u64,
    pub open_files: u32,
    pub fs_type: FsType,
}

} // verus!
