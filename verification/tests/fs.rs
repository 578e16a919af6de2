use lib::fs::types::{FsType, FileType, FilePermissions, OpenFlags, SeekFrom, INode, FileDescriptor, FsError, DirEntry, FileAttr, FsStats};
use lib::fs::vfs::VirtualFileSystem;
use lib::fs::agentfs::AgentFileSystem;


// === FilePermissions 测试 ===

#[test]
fn test_file_permissions_new() {
    let perm = FilePermissions::new(0o644);
    assert_eq!(perm.mode(), 0o644);
}

#[test]
fn test_file_permissions_is_readable() {
    let perm = FilePermissions::new(0o644);
    assert!(perm.is_readable());

    let perm_no_read = FilePermissions::new(0o022);
    assert!(!perm_no_read.is_readable());
}

#[test]
fn test_file_permissions_is_writable() {
    let perm = FilePermissions::new(0o644);
    assert!(perm.is_writable());

    let perm_readonly = FilePermissions::new(0o444);
    assert!(!perm_readonly.is_writable());
}

#[test]
fn test_file_permissions_is_executable() {
    let perm = FilePermissions::new(0o755);
    assert!(perm.is_executable());

    let perm_no_exec = FilePermissions::new(0o644);
    assert!(!perm_no_exec.is_executable());
}

#[test]
fn test_file_permissions_bit_ops() {
    let perm1 = FilePermissions::new(0o400);
    let perm2 = FilePermissions::new(0o200);
    let combined = perm1 | perm2;
    assert_eq!(combined.mode(), 0o600);

    let anded = combined & FilePermissions::new(0o100);
    assert_eq!(anded.mode(), 0o000);

    let notted = !FilePermissions::new(0o000);
    assert_eq!(notted.mode(), 0o777);
}

#[test]
fn test_file_permissions_default() {
    let file_perm = FilePermissions::default_file();
    assert_eq!(file_perm.mode(), 0o644);

    let dir_perm = FilePermissions::default_dir();
    assert_eq!(dir_perm.mode(), 0o755);
}

// === OpenFlags 测试 ===

#[test]
fn test_open_flags_readable() {
    let flags = OpenFlags::READ();
    assert!(flags.is_readable());
    assert!(!flags.is_writable());
}

#[test]
fn test_open_flags_writable() {
    let flags = OpenFlags::WRITE();
    assert!(flags.is_writable());
}

#[test]
fn test_open_flags_append() {
    let flags = OpenFlags::APPEND();
    assert!(flags.is_writable());
}

#[test]
fn test_open_flags_contains() {
    let flags = OpenFlags::READ() | OpenFlags::CREATE() | OpenFlags::WRITE();
    assert!(flags.contains(OpenFlags::READ()));
    assert!(flags.contains(OpenFlags::CREATE()));
    assert!(flags.contains(OpenFlags::WRITE()));
    assert!(!flags.contains(OpenFlags::APPEND()));
}

// === FileType 测试 ===

#[test]
fn test_file_type_values() {
    assert_eq!(FileType::Regular as u8, 0);
    assert_eq!(FileType::Directory as u8, 1);
    assert_eq!(FileType::SymLink as u8, 2);
    assert_eq!(FileType::CharDevice as u8, 3);
    assert_eq!(FileType::BlockDevice as u8, 4);
    assert_eq!(FileType::FIFO as u8, 5);
    assert_eq!(FileType::Socket as u8, 6);
}

#[test]
fn test_file_type_display() {
    assert_eq!(FileType::Regular.display_text(), "普通文件");
    assert_eq!(FileType::Directory.display_text(), "目录");
}

// === FsType 测试 ===

#[test]
fn test_fs_type_values() {
    assert_eq!(FsType::AgentFS as u8, 0);
    assert_eq!(FsType::TempFS as u8, 1);
    assert_eq!(FsType::MemFS as u8, 2);
    assert_eq!(FsType::Fat32 as u8, 3);
    assert_eq!(FsType::Ext2 as u8, 4);
}

// === INode 测试 ===

#[test]
fn test_inode_new() {
    let inode = INode::new(1, FileType::Regular, FilePermissions::new(0o644));
    assert_eq!(inode.id, 1);
    assert_eq!(inode.file_type, FileType::Regular);
    assert_eq!(inode.permissions.mode(), 0o644);
    assert_eq!(inode.size, 0);
    assert!(inode.data.is_empty());
    assert!(inode.children.is_empty());
}

#[test]
fn test_inode_new_dir() {
    let inode = INode::new_dir(2, FilePermissions::new(0o755));
    assert_eq!(inode.id, 2);
    assert_eq!(inode.file_type, FileType::Directory);
    assert_eq!(inode.permissions.mode(), 0o755);
}

// === VirtualFileSystem 测试 ===

#[test]
fn test_vfs_init_root() {
    let mut vfs = VirtualFileSystem::new(FsType::MemFS);
    vfs.init_root();

    let root = vfs.inode(0).unwrap();
    assert_eq!(root.file_type, FileType::Directory);
    assert_eq!(root.permissions.mode(), 0o755);
}

#[test]
fn test_vfs_create_file() {
    let mut vfs = VirtualFileSystem::new(FsType::MemFS);
    vfs.init_root();

    let inode_id = vfs.create_file("/hello.txt", FilePermissions::new(0o644)).unwrap();
    assert!(inode_id > 0);

    let inode = vfs.inode(inode_id).unwrap();
    assert_eq!(inode.file_type, FileType::Regular);
    assert_eq!(inode.permissions.mode(), 0o644);
}

#[test]
fn test_vfs_create_file_duplicate() {
    let mut vfs = VirtualFileSystem::new(FsType::MemFS);
    vfs.init_root();

    vfs.create_file("/hello.txt", FilePermissions::new(0o644)).unwrap();
    let result = vfs.create_file("/hello.txt", FilePermissions::new(0o644));
    assert!(matches!(result, Err(FsError::AlreadyExists(_))));
}

#[test]
fn test_vfs_create_dir() {
    let mut vfs = VirtualFileSystem::new(FsType::MemFS);
    vfs.init_root();

    let inode_id = vfs.create_dir("/mydir", FilePermissions::new(0o755)).unwrap();
    assert!(inode_id > 0);

    let inode = vfs.inode(inode_id).unwrap();
    assert_eq!(inode.file_type, FileType::Directory);
}

#[test]
fn test_vfs_create_nested_dir() {
    let mut vfs = VirtualFileSystem::new(FsType::MemFS);
    vfs.init_root();

    vfs.create_dir("/parent", FilePermissions::new(0o755)).unwrap();
    let inode_id = vfs.create_dir("/parent/child", FilePermissions::new(0o755)).unwrap();
    assert!(inode_id > 0);

    // 验证嵌套结构
    let entries = vfs.list_dir("/parent").unwrap();
    assert_eq!(entries.len(), 1);
    assert_eq!(entries[0].name, "child");
}

#[test]
fn test_vfs_open_read_write_close() {
    let mut vfs = VirtualFileSystem::new(FsType::MemFS);
    vfs.init_root();

    // 创建文件
    vfs.create_file("/test.txt", FilePermissions::new(0o644)).unwrap();

    // 打开文件 (带 CREATE 标志也可以)
    let fd = vfs.open("/test.txt", OpenFlags::READ() | OpenFlags::WRITE()).unwrap();

    // 写入数据
    let data = b"Hello, OmniAgent!";
    let written = vfs.write(fd, data).unwrap();
    assert_eq!(written, data.len());

    // 关闭文件
    vfs.close(fd).unwrap();

    // 重新打开并读取
    let fd2 = vfs.open("/test.txt", OpenFlags::READ()).unwrap();
    let mut buf = [0u8; 64];
    let read = vfs.read(fd2, &mut buf).unwrap();
    assert_eq!(read, data.len());
    assert_eq!(&buf[..read], data);

    vfs.close(fd2).unwrap();
}

#[test]
fn test_vfs_open_create() {
    let mut vfs = VirtualFileSystem::new(FsType::MemFS);
    vfs.init_root();

    // 使用 CREATE 标志打开不存在的文件
    let fd = vfs.open("/newfile.txt", OpenFlags::READ() | OpenFlags::WRITE() | OpenFlags::CREATE()).unwrap();

    // 写入数据
    vfs.write(fd, b"test data").unwrap();
    vfs.close(fd).unwrap();

    // 验证文件存在
    let entries = vfs.list_dir("/").unwrap();
    assert!(entries.iter().any(|e| e.name == "newfile.txt"));
}

#[test]
fn test_vfs_open_not_found() {
    let mut vfs = VirtualFileSystem::new(FsType::MemFS);
    vfs.init_root();

    let result = vfs.open("/nonexistent.txt", OpenFlags::READ());
    assert!(matches!(result, Err(FsError::NotFound(_))));
}

#[test]
fn test_vfs_seek() {
    let mut vfs = VirtualFileSystem::new(FsType::MemFS);
    vfs.init_root();

    vfs.create_file("/seek_test.txt", FilePermissions::new(0o644)).unwrap();
    let fd = vfs.open("/seek_test.txt", OpenFlags::READ() | OpenFlags::WRITE()).unwrap();

    vfs.write(fd, b"0123456789").unwrap();

    // Seek 到起始位置
    let pos = vfs.seek(fd, SeekFrom::Start(5)).unwrap();
    assert_eq!(pos, 5);

    // 读取从位置 5 开始的数据
    let mut buf = [0u8; 5];
    let read = vfs.read(fd, &mut buf).unwrap();
    assert_eq!(read, 5);
    assert_eq!(&buf, b"56789");

    // Seek 到末尾前 3 个字节
    let pos = vfs.seek(fd, SeekFrom::End(-3)).unwrap();
    assert_eq!(pos, 7);

    let mut buf2 = [0u8; 3];
    let read2 = vfs.read(fd, &mut buf2).unwrap();
    assert_eq!(read2, 3);
    assert_eq!(&buf2, b"789");

    vfs.close(fd).unwrap();
}

#[test]
fn test_vfs_seek_invalid_offset() {
    let mut vfs = VirtualFileSystem::new(FsType::MemFS);
    vfs.init_root();

    vfs.create_file("/seek_test.txt", FilePermissions::new(0o644)).unwrap();
    let fd = vfs.open("/seek_test.txt", OpenFlags::READ() | OpenFlags::WRITE()).unwrap();

    vfs.write(fd, b"hello").unwrap();

    // 负偏移量应失败
    let result = vfs.seek(fd, SeekFrom::End(-100));
    assert_eq!(result, Err(FsError::InvalidOffset));

    vfs.close(fd).unwrap();
}

#[test]
fn test_vfs_list_dir() {
    let mut vfs = VirtualFileSystem::new(FsType::MemFS);
    vfs.init_root();

    vfs.create_file("/a.txt", FilePermissions::new(0o644)).unwrap();
    vfs.create_file("/b.txt", FilePermissions::new(0o644)).unwrap();
    vfs.create_dir("/subdir", FilePermissions::new(0o755)).unwrap();

    let entries = vfs.list_dir("/").unwrap();
    assert_eq!(entries.len(), 3);

    let names: Vec<&str> = entries.iter().map(|e| e.name.as_str()).collect();
    assert!(names.contains(&"a.txt"));
    assert!(names.contains(&"b.txt"));
    assert!(names.contains(&"subdir"));
}

#[test]
fn test_vfs_list_dir_empty() {
    let mut vfs = VirtualFileSystem::new(FsType::MemFS);
    vfs.init_root();

    let entries = vfs.list_dir("/").unwrap();
    assert!(entries.is_empty());
}

#[test]
fn test_vfs_stat() {
    let mut vfs = VirtualFileSystem::new(FsType::MemFS);
    vfs.init_root();

    vfs.create_file("/stat_test.txt", FilePermissions::new(0o644)).unwrap();

    // 写入一些数据
    let fd = vfs.open("/stat_test.txt", OpenFlags::READ() | OpenFlags::WRITE()).unwrap();
    vfs.write(fd, b"hello world").unwrap();
    vfs.close(fd).unwrap();

    let attr = vfs.stat("/stat_test.txt").unwrap();
    assert_eq!(attr.file_type, FileType::Regular);
    assert_eq!(attr.size, 11);
    assert_eq!(attr.permissions.mode(), 0o644);
}

#[test]
fn test_vfs_remove_file() {
    let mut vfs = VirtualFileSystem::new(FsType::MemFS);
    vfs.init_root();

    vfs.create_file("/to_remove.txt", FilePermissions::new(0o644)).unwrap();
    vfs.remove_file("/to_remove.txt").unwrap();

    let entries = vfs.list_dir("/").unwrap();
    assert!(entries.iter().all(|e| e.name != "to_remove.txt"));

    // 再次删除应报错
    let result = vfs.remove_file("/to_remove.txt");
    assert!(matches!(result, Err(FsError::NotFound(_))));
}

#[test]
fn test_vfs_remove_dir() {
    let mut vfs = VirtualFileSystem::new(FsType::MemFS);
    vfs.init_root();

    vfs.create_dir("/empty_dir", FilePermissions::new(0o755)).unwrap();
    vfs.remove_dir("/empty_dir").unwrap();

    let entries = vfs.list_dir("/").unwrap();
    assert!(entries.iter().all(|e| e.name != "empty_dir"));
}

#[test]
fn test_vfs_remove_dir_not_empty() {
    let mut vfs = VirtualFileSystem::new(FsType::MemFS);
    vfs.init_root();

    vfs.create_dir("/nonempty", FilePermissions::new(0o755)).unwrap();
    vfs.create_file("/nonempty/file.txt", FilePermissions::new(0o644)).unwrap();

    let result = vfs.remove_dir("/nonempty");
    assert!(matches!(result, Err(FsError::DirectoryNotEmpty(_))));
}

#[test]
fn test_vfs_remove_file_is_directory() {
    let mut vfs = VirtualFileSystem::new(FsType::MemFS);
    vfs.init_root();

    vfs.create_dir("/adir", FilePermissions::new(0o755)).unwrap();

    let result = vfs.remove_file("/adir");
    assert!(matches!(result, Err(FsError::IsADirectory(_))));
}

#[test]
fn test_vfs_stats() {
    let mut vfs = VirtualFileSystem::new(FsType::MemFS);
    vfs.init_root();

    vfs.create_file("/f1.txt", FilePermissions::new(0o644)).unwrap();
    vfs.create_dir("/d1", FilePermissions::new(0o755)).unwrap();

    let stats = vfs.stats();
    assert_eq!(stats.fs_type, FsType::MemFS);
    assert_eq!(stats.used_inodes, 3); // root + f1 + d1
    assert_eq!(stats.open_files, 0);
}

// === 路径解析测试 ===

#[test]
fn test_resolve_path_absolute() {
    let mut vfs = VirtualFileSystem::new(FsType::MemFS);
    vfs.init_root();

    vfs.create_dir("/a", FilePermissions::new(0o755)).unwrap();
    vfs.create_dir("/a/b", FilePermissions::new(0o755)).unwrap();
    vfs.create_file("/a/b/c.txt", FilePermissions::new(0o644)).unwrap();

    let inode_id = vfs.resolve_path("/a/b/c.txt").unwrap();
    let inode = vfs.inode(inode_id).unwrap();
    assert_eq!(inode.file_type, FileType::Regular);
}

#[test]
fn test_resolve_path_root() {
    let mut vfs = VirtualFileSystem::new(FsType::MemFS);
    vfs.init_root();

    let inode_id = vfs.resolve_path("/").unwrap();
    assert_eq!(inode_id, 0);
}

#[test]
fn test_resolve_path_not_found() {
    let mut vfs = VirtualFileSystem::new(FsType::MemFS);
    vfs.init_root();

    let result = vfs.resolve_path("/nonexistent/path");
    assert!(matches!(result, Err(FsError::NotFound(_))));
}

#[test]
fn test_resolve_path_not_directory() {
    let mut vfs = VirtualFileSystem::new(FsType::MemFS);
    vfs.init_root();

    vfs.create_file("/file.txt", FilePermissions::new(0o644)).unwrap();

    let result = vfs.resolve_path("/file.txt/something");
    assert!(matches!(result, Err(FsError::NotADirectory(_))));
}

#[test]
fn test_resolve_path_empty() {
    let mut vfs = VirtualFileSystem::new(FsType::MemFS);
    vfs.init_root();

    let result = vfs.resolve_path("");
    assert!(matches!(result, Err(FsError::InvalidPath(_))));
}

// === 错误处理测试 ===

#[test]
fn test_error_not_open() {
    let mut vfs = VirtualFileSystem::new(FsType::MemFS);
    vfs.init_root();

    let result = vfs.close(FileDescriptor(999));
    assert_eq!(result, Err(FsError::NotOpen(FileDescriptor(999))));
}

#[test]
fn test_error_read_not_open() {
    let mut vfs = VirtualFileSystem::new(FsType::MemFS);
    vfs.init_root();

    let mut buf = [0u8; 10];
    let result = vfs.read(FileDescriptor(999), &mut buf);
    assert_eq!(result, Err(FsError::NotOpen(FileDescriptor(999))));
}

#[test]
fn test_error_write_readonly() {
    let mut vfs = VirtualFileSystem::new(FsType::MemFS);
    vfs.init_root();

    vfs.create_file("/readonly.txt", FilePermissions::new(0o644)).unwrap();
    let fd = vfs.open("/readonly.txt", OpenFlags::READ()).unwrap();

    let result = vfs.write(fd, b"test");
    assert!(matches!(result, Err(FsError::PermissionDenied(_))));

    vfs.close(fd).unwrap();
}

#[test]
fn test_error_read_writable_only() {
    let mut vfs = VirtualFileSystem::new(FsType::MemFS);
    vfs.init_root();

    vfs.create_file("/writeonly.txt", FilePermissions::new(0o644)).unwrap();
    let fd = vfs.open("/writeonly.txt", OpenFlags::WRITE()).unwrap();

    let mut buf = [0u8; 10];
    let result = vfs.read(fd, &mut buf);
    assert!(matches!(result, Err(FsError::PermissionDenied(_))));

    vfs.close(fd).unwrap();
}

#[test]
fn test_error_display() {
    let err = FsError::NotFound("test.txt".into());
    assert_eq!(err.message(), "未找到: test.txt");

    let err = FsError::PermissionDenied("无权限".into());
    assert_eq!(err.message(), "权限不足: 无权限");

    let err = FsError::DirectoryNotEmpty("mydir".into());
    assert_eq!(err.message(), "目录非空: mydir");
}

#[test]
fn test_vfs_open_truncate() {
    let mut vfs = VirtualFileSystem::new(FsType::MemFS);
    vfs.init_root();

    // 创建文件并写入数据
    vfs.create_file("/truncate.txt", FilePermissions::new(0o644)).unwrap();
    let fd = vfs.open("/truncate.txt", OpenFlags::READ() | OpenFlags::WRITE()).unwrap();
    vfs.write(fd, b"Hello World!").unwrap();
    vfs.close(fd).unwrap();

    // 用 TRUNCATE 标志重新打开
    let fd2 = vfs.open("/truncate.txt", OpenFlags::READ() | OpenFlags::WRITE() | OpenFlags::TRUNCATE()).unwrap();

    // 文件应该被清空
    let mut buf = [0u8; 64];
    let read = vfs.read(fd2, &mut buf).unwrap();
    assert_eq!(read, 0);

    vfs.close(fd2).unwrap();
}

#[test]
fn test_vfs_append() {
    let mut vfs = VirtualFileSystem::new(FsType::MemFS);
    vfs.init_root();

    vfs.create_file("/append.txt", FilePermissions::new(0o644)).unwrap();
    let fd = vfs.open("/append.txt", OpenFlags::WRITE() | OpenFlags::APPEND()).unwrap();

    vfs.write(fd, b"Hello ").unwrap();
    vfs.write(fd, b"World!").unwrap();
    vfs.close(fd).unwrap();

    // 读取验证
    let fd2 = vfs.open("/append.txt", OpenFlags::READ()).unwrap();
    let mut buf = [0u8; 64];
    let read = vfs.read(fd2, &mut buf).unwrap();
    assert_eq!(&buf[..read], b"Hello World!");
    vfs.close(fd2).unwrap();
}

#[test]
fn test_vfs_read_eof() {
    let mut vfs = VirtualFileSystem::new(FsType::MemFS);
    vfs.init_root();

    vfs.create_file("/eof.txt", FilePermissions::new(0o644)).unwrap();
    let fd = vfs.open("/eof.txt", OpenFlags::READ()).unwrap();

    let mut buf = [0u8; 10];
    let read = vfs.read(fd, &mut buf).unwrap();
    assert_eq!(read, 0); // 空文件，EOF

    vfs.close(fd).unwrap();
}

// === AgentFileSystem 测试 ===

#[test]
fn test_agent_fs_create() {
    let mut afs = AgentFileSystem::new();
    afs.create_agent_fs(1).unwrap();
    afs.create_agent_fs(2).unwrap();

    let agents = afs.list_agents();
    assert_eq!(agents.len(), 2);
    assert!(agents.contains(&1));
    assert!(agents.contains(&2));
}

#[test]
fn test_agent_fs_duplicate() {
    let mut afs = AgentFileSystem::new();
    afs.create_agent_fs(1).unwrap();

    let result = afs.create_agent_fs(1);
    assert!(matches!(result, Err(FsError::AlreadyExists(_))));
}

#[test]
fn test_agent_fs_remove() {
    let mut afs = AgentFileSystem::new();
    afs.create_agent_fs(1).unwrap();
    afs.remove_agent_fs(1).unwrap();

    assert!(afs.list_agents().is_empty());
}

#[test]
fn test_agent_fs_remove_nonexistent() {
    let mut afs = AgentFileSystem::new();
    let result = afs.remove_agent_fs(999);
    assert!(matches!(result, Err(FsError::NotFound(_))));
}

#[test]
fn test_agent_fs_isolated_namespaces() {
    let mut afs = AgentFileSystem::new();
    afs.create_agent_fs(1).unwrap();
    afs.create_agent_fs(2).unwrap();

    // Agent 1 创建文件
    let fd1 = afs.agent_open(1, "/agent1_file.txt", OpenFlags::READ() | OpenFlags::WRITE() | OpenFlags::CREATE()).unwrap();
    afs.agent_write(1, fd1, b"Agent 1 data").unwrap();
    afs.agent_close(1, fd1).unwrap();

    // Agent 2 不应该看到 Agent 1 的文件
    let result = afs.agent_open(2, "/agent1_file.txt", OpenFlags::READ());
    assert!(matches!(result, Err(FsError::NotFound(_))));

    // Agent 2 创建自己的文件
    let fd2 = afs.agent_open(2, "/agent2_file.txt", OpenFlags::READ() | OpenFlags::WRITE() | OpenFlags::CREATE()).unwrap();
    afs.agent_write(2, fd2, b"Agent 2 data").unwrap();
    afs.agent_close(2, fd2).unwrap();

    // Agent 1 不应该看到 Agent 2 的文件
    let result = afs.agent_open(1, "/agent2_file.txt", OpenFlags::READ());
    assert!(matches!(result, Err(FsError::NotFound(_))));
}

#[test]
fn test_agent_fs_read_write() {
    let mut afs = AgentFileSystem::new();
    afs.create_agent_fs(42).unwrap();

    let fd = afs.agent_open(42, "/data.bin", OpenFlags::READ() | OpenFlags::WRITE() | OpenFlags::CREATE()).unwrap();
    let written = afs.agent_write(42, fd, b"\x01\x02\x03\x04\x05").unwrap();
    assert_eq!(written, 5);

    // 需要重新打开或 seek 才能读取刚写入的数据
    // 这里我们关闭后重新打开
    afs.agent_close(42, fd).unwrap();

    let fd2 = afs.agent_open(42, "/data.bin", OpenFlags::READ()).unwrap();
    let mut buf = [0u8; 5];
    let read = afs.agent_read(42, fd2, &mut buf).unwrap();
    assert_eq!(read, 5);
    assert_eq!(&buf, b"\x01\x02\x03\x04\x05");
    afs.agent_close(42, fd2).unwrap();
}

#[test]
fn test_agent_fs_nonexistent_agent() {
    let mut afs = AgentFileSystem::new();

    let result = afs.agent_open(999, "/test.txt", OpenFlags::READ());
    assert!(matches!(result, Err(FsError::NotFound(_))));
}

#[test]
fn test_shared_fs_operations() {
    let mut afs = AgentFileSystem::new();

    // 共享区域创建文件
    let fd = afs.shared_open("/shared.txt", OpenFlags::READ() | OpenFlags::WRITE() | OpenFlags::CREATE()).unwrap();
    afs.shared_write(fd, b"Shared data").unwrap();
    afs.shared_close(fd).unwrap();

    // 读取共享文件
    let fd2 = afs.shared_open("/shared.txt", OpenFlags::READ()).unwrap();
    let mut buf = [0u8; 64];
    let read = afs.shared_read(fd2, &mut buf).unwrap();
    assert_eq!(&buf[..read], b"Shared data");
    afs.shared_close(fd2).unwrap();
}

#[test]
fn test_shared_fs_list_dir() {
    let mut afs = AgentFileSystem::new();

    afs.shared_create_file("/s1.txt", FilePermissions::new(0o644)).unwrap();
    afs.shared_create_file("/s2.txt", FilePermissions::new(0o644)).unwrap();

    let entries = afs.shared_list_dir("/").unwrap();
    assert_eq!(entries.len(), 2);
}

#[test]
fn test_agent_fs_list_dir() {
    let mut afs = AgentFileSystem::new();
    afs.create_agent_fs(1).unwrap();

    afs.agent_create_file(1, "/a.txt", FilePermissions::new(0o644)).unwrap();
    afs.agent_create_dir(1, "/mydir", FilePermissions::new(0o755)).unwrap();

    let entries = afs.agent_list_dir(1, "/").unwrap();
    assert_eq!(entries.len(), 2);
}


#[test]
fn vfs_error_texts_name_what_failed() {
    let mut vfs = VirtualFileSystem::new(FsType::MemFS);
    vfs.init_root();
    assert_eq!(vfs.open("/nonexistent.txt", OpenFlags::READ()), Err(FsError::NotFound("/nonexistent.txt".to_string())));
    vfs.create_dir("/d", FilePermissions::new(0o755)).unwrap();
    assert_eq!(vfs.open("/d", OpenFlags::READ()), Err(FsError::IsADirectory("/d".to_string())));
    assert_eq!(vfs.remove_file("/d"), Err(FsError::IsADirectory("'d' 是目录，请使用 remove_dir".to_string())));
    assert_eq!(vfs.remove_file("/x"), Err(FsError::NotFound("'x' 未找到".to_string())));
    vfs.create_file("/d/f", FilePermissions::new(0o644)).unwrap();
    assert_eq!(vfs.remove_dir("/d"), Err(FsError::DirectoryNotEmpty("'d' 目录非空".to_string())));
    assert_eq!(vfs.remove_dir("/d/f"), Err(FsError::NotADirectory("'f' 不是目录".to_string())));
    let fd = vfs.open("/d/f", OpenFlags::READ()).unwrap();
    assert_eq!(vfs.remove_file("/d/f"), Err(FsError::IoError("'f' 正在使用中".to_string())));
    vfs.close(fd).unwrap();
    assert_eq!(vfs.remove_file("/d/f"), Ok(()));
    assert_eq!(vfs.create_file("/d", FilePermissions::new(0o644)), Err(FsError::AlreadyExists("d 已存在".to_string())));
    assert_eq!(vfs.create_file("/", FilePermissions::new(0o644)), Err(FsError::InvalidPath("不能在根目录上执行此操作".to_string())));
    assert_eq!(vfs.list_dir("/missing/x").err(), Some(FsError::NotFound("missing 未找到".to_string())));
    assert_eq!(vfs.close(FileDescriptor(77)), Err(FsError::NotOpen(FileDescriptor(77))));
}

#[test]
fn agent_fs_error_texts_name_the_agent() {
    let mut afs = AgentFileSystem::new();
    afs.create_agent_fs(7).unwrap();
    assert_eq!(afs.create_agent_fs(7), Err(FsError::AlreadyExists("Agent 7 文件系统已存在".to_string())));
    assert_eq!(afs.remove_agent_fs(8), Err(FsError::NotFound("Agent 8 文件系统不存在".to_string())));
}
