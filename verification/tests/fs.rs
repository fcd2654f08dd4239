use quados::config::PAGE_SIZE;
use quados::fs::base::{
    DirEntry, Errno, FSPage, FSTrait, FileSystem, FileType, INodeInterface, OpenFlags,
    PollEvent, Stat, StatFS, StatMode, TimeSpec,
};
use quados::fs::pager::FSTraitImpl;
use quados::fs::path::{split_path, starts_at_root};
use quados::fs::ramfs::RamFs;
use quados::fs::tree::FileTree;
use quados::mem::frames::FrameTable;

type Fs = RamFs<FSTraitImpl>;

fn pager(frames: usize) -> FSTraitImpl {
    let mut table = FrameTable::new();
    assert!(table.add_region(0x100, 0x100 + frames));
    FSTraitImpl::new(table, 0xffff_ffc0_0000_0000)
}

fn ramfs() -> Fs {
    RamFs::new(pager(64))
}

fn flags(bits: usize) -> OpenFlags {
    OpenFlags::from_bits(bits)
}

fn names(entries: &[DirEntry]) -> Vec<(String, FileType, usize)> {
    entries.iter().map(|e| (e.filename.clone(), e.file_type, e.len)).collect()
}

fn read_all(fs: &Fs, node: usize, offset: usize, room: usize) -> Vec<u8> {
    let mut buffer = vec![0xffu8; room];
    let n = fs.readat(node, offset, &mut buffer).expect("a read");
    assert!(buffer[n..].iter().all(|b| *b == 0xff), "bytes behind the read were touched");
    buffer.truncate(n);
    buffer
}

fn stat_zero() -> Stat {
    Stat {
        dev: 0,
        ino: 0,
        mode: StatMode::from_bits(0),
        nlink: 0,
        uid: 0,
        gid: 0,
        rdev: 0,
        __pad: 0,
        size: 0,
        blksize: 0,
        __pad2: 0,
        blocks: 0,
        atime: TimeSpec::zero(),
        mtime: TimeSpec::zero(),
        ctime: TimeSpec::zero(),
    }
}

// ---------------------------------------------------------------- paths

fn split(path: &str) -> Vec<String> {
    split_path(path)
}

#[test]
fn paths_split_at_each_separator() {
    assert_eq!(split("test"), vec!["test"]);
    assert_eq!(split("/test/123"), vec!["", "test", "123"]);
    assert_eq!(split("a/b/c"), vec!["a", "b", "c"]);
    assert_eq!(split(""), vec![""]);
    assert_eq!(split("/"), vec!["", ""]);
    assert_eq!(split("a//b"), vec!["a", "", "b"]);
    assert_eq!(split("a/"), vec!["a", ""]);
    assert_eq!(split("../x/."), vec!["..", "x", "."]);
    assert_eq!(split("/ü/日本"), vec!["", "ü", "日本"]);
    for path in ["", "/", "a", "/a/b/", "//", "x/y/z", "a//b///c"] {
        let expected: Vec<String> = path.split('/').map(String::from).collect();
        assert_eq!(split(path), expected);
    }
}

#[test]
fn absolute_paths_start_with_a_separator() {
    assert!(starts_at_root("/"));
    assert!(starts_at_root("/a"));
    assert!(!starts_at_root(""));
    assert!(!starts_at_root("a/"));
    assert!(!starts_at_root("./a"));
}

// ---------------------------------------------------------------- types

#[test]
fn open_flags_contain_their_bits() {
    let both = flags(OpenFlags::CREAT | OpenFlags::RDWR);
    assert!(both.contains(OpenFlags::CREAT));
    assert!(both.contains(OpenFlags::RDWR));
    assert!(both.contains(OpenFlags::RDONLY));
    assert!(!both.contains(OpenFlags::DIRECTORY));
    assert!(!both.contains(OpenFlags::ACCMODE));
    assert!(!flags(OpenFlags::DIRECTORY).contains(OpenFlags::CREAT));
    assert_eq!(flags(OpenFlags::CREAT).union(OpenFlags::TRUNC).bits, 0o1100);
    assert_eq!(OpenFlags::CREAT, 0o100);
    assert_eq!(OpenFlags::DIRECTORY, 0o200000);
    assert_eq!(OpenFlags::TMPFILE, 0o20200000);
    assert!(flags(OpenFlags::TMPFILE).contains(OpenFlags::DIRECTORY));
}

#[test]
fn stat_mode_and_poll_events_contain_their_bits() {
    let mode = StatMode::from_bits(StatMode::DIR | StatMode::OWNER_READ);
    assert!(mode.contains(StatMode::DIR));
    assert!(mode.contains(StatMode::OWNER_READ));
    assert!(!mode.contains(StatMode::FILE));
    assert!(!mode.contains(StatMode::OWNER_MASK));
    assert_eq!(StatMode::LINK, 0o120000);
    let events = PollEvent::from_bits(PollEvent::POLLIN | PollEvent::POLLHUP);
    assert!(events.contains(PollEvent::POLLIN));
    assert!(!events.contains(PollEvent::POLLOUT));
    assert_eq!(PollEvent::POLLNVAL, 0x20);
}

#[test]
fn time_in_nanoseconds() {
    assert_eq!(TimeSpec { sec: 0, nsec: 0 }.to_nsec(), 0);
    assert_eq!(TimeSpec { sec: 3, nsec: 7 }.to_nsec(), 3_000_000_007);
    assert_eq!(TimeSpec { sec: 18_446_744_073, nsec: 709_551_615 }.to_nsec(), u64::MAX);
    assert_eq!(TimeSpec { sec: 3, nsec: 7 }.checked_to_nsec(), Some(3_000_000_007));
    assert_eq!(
        TimeSpec { sec: 18_446_744_073, nsec: 709_551_615 }.checked_to_nsec(),
        Some(u64::MAX)
    );
    assert_eq!(TimeSpec { sec: 18_446_744_073, nsec: 709_551_616 }.checked_to_nsec(), None);
    assert_eq!(TimeSpec { sec: 18_446_744_074, nsec: 0 }.checked_to_nsec(), None);
    assert_eq!(TimeSpec::UTIME_NOW, 0x3fffffff);
    assert_eq!(TimeSpec::UTIME_OMIT, 0x3ffffffe);
}

#[test]
fn file_pages_start_zero_and_keep_what_is_written() {
    let mut page = FSPage::new(0x8000_0000, 3);
    assert_eq!(page.addr(), 0x8000_0000);
    assert_eq!(page.page_count(), 3);
    assert_eq!(page.get_buffer().len(), PAGE_SIZE);
    assert!(page.get_buffer().iter().all(|b| *b == 0));
    page.write(4090, b"0123456789", 2, 6);
    assert_eq!(&page.get_buffer()[4090..], b"234567");
    assert!(page.get_buffer()[..4090].iter().all(|b| *b == 0));
    let mut out = [0xeeu8; 8];
    page.read(4092, &mut out, 3, 4);
    assert_eq!(out, [0xee, 0xee, 0xee, b'4', b'5', b'6', b'7', 0xee]);
    page.zero_from(4093);
    assert_eq!(&page.get_buffer()[4090..], &[b'2', b'3', b'4', 0, 0, 0]);
    page.zero_from(PAGE_SIZE);
    assert_eq!(page.get_buffer()[4092], b'4');
    page.zero_from(0);
    assert!(page.get_buffer().iter().all(|b| *b == 0));
}

// ---------------------------------------------------------------- pager

#[test]
fn pager_hands_out_blocks_of_the_frame_table() {
    let mut source = pager(4);
    let page = source.alloc_page(1).expect("a page");
    assert_eq!(page.addr() % PAGE_SIZE, 0);
    assert_eq!(page.page_count(), 1);
    let frame = page.addr() / PAGE_SIZE;
    assert!((0x100..0x104).contains(&frame));
    assert!(source.table().is_reserved(frame));
    assert!(page.get_buffer().iter().all(|b| *b == 0));
    source.dealloc_page(page.addr(), page.page_count());
    assert!(source.table().is_free(frame));
    let two = source.alloc_page(2).expect("pages");
    assert_eq!(two.page_count(), 2);
    assert!(source.table().is_reserved(two.addr() / PAGE_SIZE + 1));
    assert!(source.alloc_page(4).is_none());
    let table = source.into_table();
    assert_eq!(table.outstanding_list().len(), 1);
}

#[test]
fn pager_translates_addresses() {
    let source = pager(1);
    assert_eq!(source.phys_to_virt(0x8020_0000), 0xffff_ffc0_8020_0000);
    assert_eq!(source.virt_to_phys(0xffff_ffc0_8020_0000), 0x8020_0000);
    assert_eq!(source.virt_to_phys(source.phys_to_virt(0x1234)), 0x1234);
}

#[test]
fn pager_ignores_a_release_of_what_is_not_outstanding() {
    let mut source = pager(2);
    source.dealloc_page(0x100 * PAGE_SIZE, 1);
    source.dealloc_page(0, 1);
    assert!(source.table().is_free(0x100));
    assert!(source.table().outstanding_list().is_empty());
}

#[test]
fn pager_hands_out_a_page_exactly_while_a_frame_is_free() {
    let mut source = pager(2);
    let first = source.alloc_page(1).expect("a page");
    let second = source.alloc_page(1).expect("a page");
    assert_ne!(first.addr(), second.addr());
    assert!(source.alloc_page(1).is_none());
    assert!(source.alloc_page(0).is_none());
    assert_eq!(source.table().outstanding_list().len(), 2);
    source.dealloc_page(second.addr() + 17, 1);
    assert!(source.table().is_free(second.addr() / PAGE_SIZE));
    assert!(source.table().is_reserved(first.addr() / PAGE_SIZE));
    let again = source.alloc_page(1).expect("a page");
    assert_eq!(again.addr(), second.addr());
}

// ---------------------------------------------------------------- ramfs

#[test]
fn new_file_system_has_an_empty_root() {
    let fs = ramfs();
    assert_eq!(fs.root_dir(), 0);
    assert_eq!(fs.name(), "ramfs");
    assert!(fs.read_dir(0).expect("a listing").is_empty());
    assert_eq!(fs.flush_all(), Err(Errno::EPERM));
}

#[test]
fn hello_world_is_read_back() {
    let mut fs = ramfs();
    let file = fs.open(0, "123", flags(OpenFlags::CREAT | OpenFlags::RDWR)).expect("a file");
    assert_eq!(fs.writeat(file, 0, b"Hello world!"), Ok(12));
    let mut buffer = [0u8; PAGE_SIZE];
    assert_eq!(fs.readat(file, 0, &mut buffer), Ok(12));
    assert_eq!(&buffer[..12], b"Hello world!");
    assert!(buffer[12..].iter().all(|b| *b == 0));
    let mut exact = [0u8; 12];
    assert_eq!(fs.readat(file, 0, &mut exact), Ok(12));
    assert_eq!(&exact, b"Hello world!");
}

#[test]
fn truncated_file_is_read_up_to_its_length() {
    let mut fs = ramfs();
    let file = fs.open(0, "123", flags(OpenFlags::CREAT)).expect("a file");
    assert_eq!(fs.writeat(file, 0, b"Hello world!"), Ok(12));
    assert_eq!(fs.truncate(file, 5), Ok(()));
    let mut buffer = [0u8; PAGE_SIZE];
    assert_eq!(fs.readat(file, 0, &mut buffer), Ok(5));
    assert_eq!(&buffer[..5], b"Hello");
    assert!(buffer[5..].iter().all(|b| *b == 0));
    // What was cut off was cleared: growing again shows zeros.
    assert_eq!(fs.truncate(file, 12), Ok(()));
    assert_eq!(read_all(&fs, file, 0, 100), b"Hello\0\0\0\0\0\0\0");
}

#[test]
fn read_yields_the_overlap_with_the_file() {
    let mut fs = ramfs();
    let file = fs.open(0, "f", flags(OpenFlags::CREAT)).expect("a file");
    assert_eq!(read_all(&fs, file, 0, 10), b"");
    assert_eq!(fs.writeat(file, 0, b"0123456789"), Ok(10));
    assert_eq!(read_all(&fs, file, 0, 4), b"0123");
    assert_eq!(read_all(&fs, file, 3, 4), b"3456");
    assert_eq!(read_all(&fs, file, 8, 4), b"89");
    assert_eq!(read_all(&fs, file, 9, 1), b"9");
    assert_eq!(read_all(&fs, file, 10, 4), b"");
    assert_eq!(read_all(&fs, file, 11, 4), b"");
    assert_eq!(read_all(&fs, file, usize::MAX, 4), b"");
    assert_eq!(read_all(&fs, file, 0, 0), b"");
}

#[test]
fn write_spans_pages_and_grows_the_file() {
    let mut fs = ramfs();
    let file = fs.open(0, "f", flags(OpenFlags::CREAT)).expect("a file");
    let data: Vec<u8> = (0..10_000u32).map(|i| (i % 253) as u8).collect();
    assert_eq!(fs.writeat(file, 4000, &data), Ok(10_000));
    // Before the write the file holds zeros.
    assert_eq!(read_all(&fs, file, 0, 4000), vec![0u8; 4000]);
    assert_eq!(read_all(&fs, file, 4000, 20_000), data);
    assert_eq!(read_all(&fs, file, 4090, 12), &data[90..102]);
    assert_eq!(names(&fs.read_dir(0).unwrap()), vec![("f".to_string(), FileType::File, 14_000)]);
}

#[test]
fn write_within_the_file_keeps_the_length() {
    let mut fs = ramfs();
    let file = fs.open(0, "f", flags(OpenFlags::CREAT)).expect("a file");
    assert_eq!(fs.writeat(file, 0, b"0123456789"), Ok(10));
    assert_eq!(fs.writeat(file, 2, b"ab"), Ok(2));
    assert_eq!(read_all(&fs, file, 0, 100), b"01ab456789");
    assert_eq!(fs.writeat(file, 8, b"XYZ"), Ok(3));
    assert_eq!(read_all(&fs, file, 0, 100), b"01ab4567XYZ");
    assert_eq!(fs.writeat(file, 3, b""), Ok(0));
    assert_eq!(read_all(&fs, file, 0, 100), b"01ab4567XYZ");
    // An empty write behind the end extends the length.
    assert_eq!(fs.writeat(file, 20, b""), Ok(0));
    assert_eq!(read_all(&fs, file, 0, 100), b"01ab4567XYZ\0\0\0\0\0\0\0\0\0");
}

#[test]
fn write_that_would_end_beyond_the_address_space_is_refused() {
    let mut fs = ramfs();
    let file = fs.open(0, "f", flags(OpenFlags::CREAT)).expect("a file");
    assert_eq!(fs.writeat(file, usize::MAX, b"x"), Err(Errno::EINVAL));
    assert_eq!(fs.writeat(file, usize::MAX - 4094, b""), Err(Errno::EINVAL));
    assert_eq!(fs.writeat(file, usize::MAX - 4097, b"abc"), Err(Errno::EINVAL));
    assert_eq!(fs.truncate(file, usize::MAX), Err(Errno::EINVAL));
    assert_eq!(fs.truncate(file, usize::MAX - 4094), Err(Errno::EINVAL));
    // The last length that pages can cover is refused for want of pages.
    assert_eq!(fs.writeat(file, usize::MAX - 4095, b""), Err(Errno::ENOSPC));
    assert_eq!(fs.truncate(file, usize::MAX - 4095), Err(Errno::ENOSPC));
    assert_eq!(read_all(&fs, file, 0, 10), b"");
}

#[test]
fn truncate_sets_the_length_and_the_pages() {
    let mut fs = RamFs::new(pager(8));
    let file = fs.open(0, "f", flags(OpenFlags::CREAT)).expect("a file");
    let data = vec![7u8; 3 * PAGE_SIZE];
    assert_eq!(fs.writeat(file, 0, &data), Ok(3 * PAGE_SIZE));
    // Shrinking to a page boundary.
    assert_eq!(fs.truncate(file, PAGE_SIZE), Ok(()));
    assert_eq!(read_all(&fs, file, 0, 3 * PAGE_SIZE), vec![7u8; PAGE_SIZE]);
    // Growing: the new pages hold zeros.
    assert_eq!(fs.truncate(file, 2 * PAGE_SIZE + 1), Ok(()));
    let mut expected = vec![7u8; PAGE_SIZE];
    expected.extend(vec![0u8; PAGE_SIZE + 1]);
    assert_eq!(read_all(&fs, file, 0, 4 * PAGE_SIZE), expected);
    // Truncating to nothing.
    assert_eq!(fs.truncate(file, 0), Ok(()));
    assert_eq!(read_all(&fs, file, 0, 10), b"");
    assert_eq!(names(&fs.read_dir(0).unwrap())[0].2, 0);
    // All eight frames can be had again.
    assert_eq!(fs.truncate(file, 8 * PAGE_SIZE), Ok(()));
    assert_eq!(fs.truncate(file, 8 * PAGE_SIZE + 1), Err(Errno::ENOSPC));
}

#[test]
fn truncate_within_the_last_page_clears_its_rest() {
    let mut fs = ramfs();
    let file = fs.open(0, "f", flags(OpenFlags::CREAT)).expect("a file");
    assert_eq!(fs.writeat(file, 0, &vec![9u8; 5000]), Ok(5000));
    assert_eq!(fs.truncate(file, 4100), Ok(()));
    assert_eq!(fs.truncate(file, 5000), Ok(()));
    let mut expected = vec![9u8; 4100];
    expected.extend(vec![0u8; 900]);
    assert_eq!(read_all(&fs, file, 0, 8192), expected);
}

#[test]
fn write_without_space_leaves_the_file_as_it_is() {
    let mut fs = RamFs::new(pager(2));
    let file = fs.open(0, "f", flags(OpenFlags::CREAT)).expect("a file");
    assert_eq!(fs.writeat(file, 0, b"keep"), Ok(4));
    assert_eq!(fs.writeat(file, 0, &vec![1u8; 3 * PAGE_SIZE]), Err(Errno::ENOSPC));
    assert_eq!(read_all(&fs, file, 0, 100), b"keep");
    assert_eq!(fs.truncate(file, 3 * PAGE_SIZE), Err(Errno::ENOSPC));
    assert_eq!(read_all(&fs, file, 0, 100), b"keep");
    // The pages that were got for the failed write went back.
    assert_eq!(fs.writeat(file, PAGE_SIZE, b"more"), Ok(4));
    assert_eq!(read_all(&fs, file, PAGE_SIZE, 100), b"more");
    // A write that needs no new page succeeds though none is left.
    assert_eq!(fs.writeat(file, 2 * PAGE_SIZE - 1, b"z"), Ok(1));
    assert_eq!(fs.writeat(file, 2 * PAGE_SIZE, b"z"), Err(Errno::ENOSPC));
}

#[test]
fn content_operations_are_refused_on_what_is_no_file() {
    let mut fs = ramfs();
    let dir = fs.mkdir(0, "d").expect("a directory");
    fs.link(0, "l", "/d").expect("a link");
    let link = fs.open(0, "l", flags(0)).expect("the link");
    let mut buffer = [0u8; 4];
    assert_eq!(fs.readat(dir, 0, &mut buffer), Err(Errno::EISDIR));
    assert_eq!(fs.writeat(dir, 0, b"x"), Err(Errno::EISDIR));
    assert_eq!(fs.truncate(dir, 0), Err(Errno::EISDIR));
    assert_eq!(fs.utimes(dir, &[TimeSpec::zero(), TimeSpec::zero()]), Err(Errno::EISDIR));
    assert_eq!(fs.readat(link, 0, &mut buffer), Err(Errno::EBADF));
    assert_eq!(fs.writeat(link, 0, b"x"), Err(Errno::EBADF));
    assert_eq!(fs.truncate(link, 0), Err(Errno::EBADF));
    assert_eq!(fs.utimes(link, &[TimeSpec::zero(), TimeSpec::zero()]), Err(Errno::EBADF));
    assert_eq!(fs.readat(99, 0, &mut buffer), Err(Errno::EBADF));
    assert_eq!(fs.writeat(99, 0, b"x"), Err(Errno::EBADF));
    assert_eq!(fs.truncate(99, 0), Err(Errno::EBADF));
    assert_eq!(buffer, [0u8; 4]);
}

#[test]
fn directory_operations_are_refused_on_what_is_no_directory() {
    let mut fs = ramfs();
    let file = fs.open(0, "f", flags(OpenFlags::CREAT)).expect("a file");
    assert_eq!(fs.open(file, "x", flags(0)), Err(Errno::ENOTDIR));
    assert_eq!(fs.open(file, "x", flags(OpenFlags::CREAT)), Err(Errno::ENOTDIR));
    assert_eq!(fs.mkdir(file, "x"), Err(Errno::ENOTDIR));
    assert_eq!(fs.rmdir(file, "x"), Err(Errno::ENOTDIR));
    assert_eq!(fs.remove(file, "x"), Err(Errno::ENOTDIR));
    assert_eq!(fs.unlink(file, "x"), Err(Errno::ENOTDIR));
    assert_eq!(fs.link(file, "x", "y"), Err(Errno::ENOTDIR));
    assert_eq!(fs.sym_link(file, "x", "y"), Err(Errno::ENOTDIR));
    assert_eq!(fs.read_dir(file).err(), Some(Errno::ENOTDIR));
    assert_eq!(fs.open(99, "x", flags(0)), Err(Errno::EBADF));
    assert_eq!(fs.mkdir(99, "x"), Err(Errno::EBADF));
    assert_eq!(fs.rmdir(99, "x"), Err(Errno::EBADF));
    assert_eq!(fs.read_dir(99).err(), Some(Errno::EBADF));
}

#[test]
fn open_finds_what_exists_and_nothing_else() {
    let mut fs = ramfs();
    assert_eq!(fs.open(0, "nothing", flags(0)), Err(Errno::ENOENT));
    assert_eq!(fs.open(0, "nothing", flags(OpenFlags::RDWR)), Err(Errno::ENOENT));
    let file = fs.open(0, "f", flags(OpenFlags::CREAT)).expect("a file");
    assert_eq!(fs.open(0, "f", flags(0)), Ok(file));
    assert_eq!(fs.open(0, "f", flags(OpenFlags::DIRECTORY)), Ok(file));
    assert_eq!(fs.open(0, "F", flags(0)), Err(Errno::ENOENT));
    assert_eq!(fs.open(0, "", flags(0)), Err(Errno::ENOENT));
}

#[test]
fn a_name_that_exists_cannot_be_created_again() {
    let mut fs = ramfs();
    let file = fs.open(0, "a", flags(OpenFlags::CREAT)).expect("a file");
    assert_eq!(fs.open(0, "a", flags(OpenFlags::CREAT)), Err(Errno::EEXIST));
    assert_eq!(fs.mkdir(0, "a"), Err(Errno::EEXIST));
    assert_eq!(fs.link(0, "a", "/x"), Err(Errno::EEXIST));
    assert_eq!(fs.sym_link(0, "a", "/x"), Err(Errno::EEXIST));
    let dir = fs.mkdir(0, "d").expect("a directory");
    assert_eq!(fs.mkdir(0, "d"), Err(Errno::EEXIST));
    assert_eq!(fs.open(0, "d", flags(OpenFlags::CREAT)), Err(Errno::EEXIST));
    // The same name in another directory is free.
    let inner = fs.open(dir, "a", flags(OpenFlags::CREAT)).expect("a file");
    assert_ne!(inner, file);
    assert_eq!(fs.read_dir(0).unwrap().len(), 2);
}

#[test]
fn listing_shows_the_children_in_order_with_their_kind() {
    let mut fs = ramfs();
    fs.mkdir(0, "hello").expect("a directory");
    let file = fs.open(0, "data", flags(OpenFlags::CREAT)).expect("a file");
    fs.link(0, "hard", "/data").expect("a link");
    fs.sym_link(0, "soft", "/hello").expect("a link");
    fs.writeat(file, 0, b"12345").expect("a write");
    assert_eq!(
        names(&fs.read_dir(0).unwrap()),
        vec![
            ("hello".to_string(), FileType::Directory, 0),
            ("data".to_string(), FileType::File, 5),
            ("hard".to_string(), FileType::Link, 0),
            ("soft".to_string(), FileType::Link, 0),
        ]
    );
}

#[test]
fn rmdir_removes_only_directories() {
    let mut fs = ramfs();
    fs.mkdir(0, "d").expect("a directory");
    fs.open(0, "f", flags(OpenFlags::CREAT)).expect("a file");
    fs.link(0, "l", "/f").expect("a link");
    assert_eq!(fs.rmdir(0, "f"), Err(Errno::ENOENT));
    assert_eq!(fs.rmdir(0, "l"), Err(Errno::ENOENT));
    assert_eq!(fs.rmdir(0, "nothing"), Err(Errno::ENOENT));
    assert_eq!(fs.read_dir(0).unwrap().len(), 3);
    assert_eq!(fs.rmdir(0, "d"), Ok(()));
    assert_eq!(fs.rmdir(0, "d"), Err(Errno::ENOENT));
    assert_eq!(
        names(&fs.read_dir(0).unwrap()),
        vec![("f".to_string(), FileType::File, 0), ("l".to_string(), FileType::Link, 0)]
    );
    assert_eq!(fs.open(0, "d", flags(0)), Err(Errno::ENOENT));
    // The name is free again.
    assert!(fs.mkdir(0, "d").is_ok());
}

#[test]
fn remove_and_unlink_remove_files_and_links_but_no_directory() {
    let mut fs = ramfs();
    fs.mkdir(0, "d").expect("a directory");
    fs.open(0, "f", flags(OpenFlags::CREAT)).expect("a file");
    fs.link(0, "l", "/f").expect("a link");
    fs.open(0, "g", flags(OpenFlags::CREAT)).expect("a file");
    assert_eq!(fs.remove(0, "d"), Err(Errno::ENOENT));
    assert_eq!(fs.unlink(0, "d"), Err(Errno::ENOENT));
    assert_eq!(fs.remove(0, "f"), Ok(()));
    assert_eq!(fs.remove(0, "f"), Err(Errno::ENOENT));
    assert_eq!(fs.unlink(0, "l"), Ok(()));
    assert_eq!(fs.unlink(0, "l"), Err(Errno::ENOENT));
    assert_eq!(
        names(&fs.read_dir(0).unwrap()),
        vec![("d".to_string(), FileType::Directory, 0), ("g".to_string(), FileType::File, 0)]
    );
}

#[test]
fn a_removed_node_keeps_its_number() {
    let mut fs = ramfs();
    let file = fs.open(0, "f", flags(OpenFlags::CREAT)).expect("a file");
    fs.writeat(file, 0, b"still here").expect("a write");
    assert_eq!(fs.remove(0, "f"), Ok(()));
    assert_eq!(read_all(&fs, file, 0, 100), b"still here");
    let other = fs.open(0, "f", flags(OpenFlags::CREAT)).expect("a file");
    assert_ne!(other, file);
    assert_eq!(read_all(&fs, other, 0, 100), b"");
}

#[test]
fn utimes_sets_access_and_change_times() {
    let mut fs = ramfs();
    let file = fs.open(0, "f", flags(OpenFlags::CREAT)).expect("a file");
    let a = TimeSpec { sec: 1, nsec: 2 };
    let m = TimeSpec { sec: 3, nsec: 4 };
    let omit = TimeSpec { sec: 9, nsec: TimeSpec::UTIME_OMIT };
    assert_eq!(fs.utimes(file, &[a, m]), Ok(()));
    assert_eq!(fs.utimes(file, &[omit, omit]), Ok(()));
    assert_eq!(fs.utimes(file, &[a, m, a]), Ok(()));
    assert_eq!(fs.utimes(file, &[a]), Err(Errno::EINVAL));
    assert_eq!(fs.utimes(file, &[]), Err(Errno::EINVAL));
}

#[test]
fn operations_without_meaning_answer_with_an_error() {
    let mut fs = ramfs();
    let file = fs.open(0, "f", flags(OpenFlags::CREAT)).expect("a file");
    for node in [0, file, 99] {
        assert_eq!(fs.metadata(node).err(), Some(Errno::ENOSYS));
        let mut stat = stat_zero();
        stat.size = 77;
        assert_eq!(fs.stat(node, &mut stat), Err(Errno::ENOSYS));
        assert_eq!(stat.size, 77);
        let mut statfs = StatFS {
            ftype: 1,
            bsize: 2,
            blocks: 3,
            bfree: 4,
            bavail: 5,
            files: 6,
            ffree: 7,
            fsid: 8,
            namelen: 9,
        };
        assert_eq!(fs.statfs(node, &mut statfs), Err(Errno::EACCES));
        assert_eq!(statfs.namelen, 9);
        assert_eq!(fs.ioctl(node, 1, 2), Err(Errno::EACCES));
        assert_eq!(fs.flush(node), Err(Errno::EACCES));
        assert_eq!(fs.resolve_link(node).err(), Some(Errno::EACCES));
        assert_eq!(fs.poll(node, PollEvent::from_bits(PollEvent::POLLIN)).err(), Some(Errno::EACCES));
    }
}

// ---------------------------------------------------------------- tree

#[test]
fn a_blank_tree_has_no_root() {
    let mut tree: FileTree<Fs> = FileTree::new();
    assert!(!tree.has_root());
    assert_eq!(tree.mount("/test", ramfs()), Err(Errno::ENOENT));
    assert!(!tree.has_root());
}

#[test]
fn the_root_is_mounted_under_three_names() {
    for path in ["/", "", "."] {
        let mut tree: FileTree<Fs> = FileTree::new();
        assert_eq!(tree.mount(path, ramfs()), Ok(()));
        assert!(tree.has_root());
        let root = tree.root();
        assert_eq!(root.get_path(), "/");
        assert!(root.read_dir(&tree).expect("a listing").is_empty());
    }
}

#[test]
fn the_root_mounted_last_is_in_effect() {
    let mut tree: FileTree<Fs> = FileTree::new();
    tree.mount("/", ramfs()).expect("a mount");
    let first = tree.root();
    first.mkdir(&mut tree, "hello").expect("a directory");
    tree.mount("/", ramfs()).expect("a mount");
    let second = tree.root();
    second.mkdir(&mut tree, "test").expect("a directory");
    // The root resolves to the second file system.
    assert_eq!(
        names(&tree.root().read_dir(&tree).unwrap()),
        vec![("test".to_string(), FileType::Directory, 0)]
    );
    let root = tree.root();
    assert_eq!(root.open(&mut tree, "/hello", flags(0)).err(), Some(Errno::ENOENT));
    assert_eq!(root.open(&mut tree, "hello", flags(0)).err(), Some(Errno::ENOENT));
    assert!(root.open(&mut tree, "/test", flags(0)).is_ok());
    assert_eq!(root.open(&mut tree, "..", flags(0)).err(), Some(Errno::ENOENT));
    // A handle on the first root still reaches it, but absolute paths
    // start at the root in effect.
    assert_eq!(
        names(&first.read_dir(&tree).unwrap()),
        vec![("hello".to_string(), FileType::Directory, 0)]
    );
    assert!(first.open(&mut tree, "hello", flags(0)).is_ok());
    assert_eq!(first.open(&mut tree, "/hello", flags(0)).err(), Some(Errno::ENOENT));
}

#[test]
fn file_in_a_mounted_file_system_is_written_and_read() {
    let mut tree: FileTree<Fs> = FileTree::new();
    tree.mount("/", ramfs()).expect("a mount");
    let root = tree.root();
    root.mkdir(&mut tree, "hello").expect("a directory");
    root.mkdir(&mut tree, "test").expect("a directory");
    tree.mount("/test", ramfs()).expect("a mount");
    let create = flags(OpenFlags::CREAT | OpenFlags::RDWR);
    let file = root.open(&mut tree, "/test/123", create).expect("a file");
    assert_eq!(file.get_path(), "///test/123");
    assert_eq!(file.writeat(&mut tree, 0, b"Hello world!"), Ok(12));

    // Opening again finds the same file, though the flags ask to create it.
    let again = root.open(&mut tree, "/test/123", create).expect("the file");
    let mut buffer = [0u8; PAGE_SIZE];
    assert_eq!(again.readat(&tree, 0, &mut buffer), Ok(12));
    assert_eq!(&buffer[..12], b"Hello world!");

    let rdwr = flags(OpenFlags::RDWR);
    let opened = root.open(&mut tree, "/test/123", rdwr).expect("the file");
    assert_eq!(opened.truncate(&mut tree, 5), Ok(()));
    let mut buffer = [0u8; PAGE_SIZE];
    let opened = root.open(&mut tree, "/test/123", rdwr).expect("the file");
    assert_eq!(opened.readat(&tree, 0, &mut buffer), Ok(5));
    assert_eq!(&buffer[..5], b"Hello");
    assert!(buffer[5..].iter().all(|b| *b == 0));

    // The root lists its own children; the mounted file system lists the file.
    assert_eq!(
        names(&tree.root().read_dir(&tree).unwrap()),
        vec![
            ("hello".to_string(), FileType::Directory, 0),
            ("test".to_string(), FileType::Directory, 0),
        ]
    );
    let test = root.open(&mut tree, "test", flags(OpenFlags::DIRECTORY)).expect("a directory");
    assert_eq!(
        names(&test.read_dir(&tree).unwrap()),
        vec![("123".to_string(), FileType::File, 5)]
    );
    let hello = root.open(&mut tree, "hello", flags(OpenFlags::DIRECTORY)).expect("a directory");
    assert!(hello.read_dir(&tree).unwrap().is_empty());
}

#[test]
fn opening_what_does_not_exist_fails() {
    let mut tree: FileTree<Fs> = FileTree::new();
    tree.mount("/", ramfs()).expect("a mount");
    let root = tree.root();
    root.mkdir(&mut tree, "dir").expect("a directory");
    assert_eq!(root.open(&mut tree, "/nothing", flags(0)).err(), Some(Errno::ENOENT));
    assert_eq!(root.open(&mut tree, "nothing", flags(0)).err(), Some(Errno::ENOENT));
    assert_eq!(root.open(&mut tree, "/dir/nothing", flags(0)).err(), Some(Errno::ENOENT));
    assert_eq!(root.open(&mut tree, "/nothing/x", flags(0)).err(), Some(Errno::ENOENT));
    // Only the last name of a path is created.
    assert_eq!(
        root.open(&mut tree, "/nothing/x", flags(OpenFlags::CREAT)).err(),
        Some(Errno::ENOENT)
    );
    assert_eq!(root.open(&mut tree, "/nothing", flags(0)).err(), Some(Errno::ENOENT));
    assert!(root.open(&mut tree, "/dir/x", flags(OpenFlags::CREAT)).is_ok());
    // A file is no directory to walk through.
    assert_eq!(root.open(&mut tree, "/dir/x/y", flags(0)).err(), Some(Errno::ENOTDIR));
    // The root itself is opened under the empty name, which nothing has.
    assert_eq!(root.open(&mut tree, "/", flags(0)).err(), Some(Errno::ENOENT));
    assert_eq!(root.open(&mut tree, "", flags(0)).err(), Some(Errno::ENOENT));
}

#[test]
fn creating_a_name_that_exists_fails() {
    let mut tree: FileTree<Fs> = FileTree::new();
    tree.mount("/", ramfs()).expect("a mount");
    let root = tree.root();
    root.mkdir(&mut tree, "hello").expect("a directory");
    assert_eq!(root.mkdir(&mut tree, "hello"), Err(Errno::EEXIST));
    assert_eq!(
        root.open(&mut tree, "/hello", flags(OpenFlags::CREAT)).err(),
        Some(Errno::EEXIST)
    );
    assert_eq!(root.link(&mut tree, "hello", "/x"), Err(Errno::EEXIST));
    assert_eq!(root.sym_link(&mut tree, "hello", "/x"), Err(Errno::EEXIST));
}

#[test]
fn dot_and_dot_dot_walk_the_tree() {
    let mut tree: FileTree<Fs> = FileTree::new();
    tree.mount("/", ramfs()).expect("a mount");
    let root = tree.root();
    root.mkdir(&mut tree, "a").expect("a directory");
    let a = root.open(&mut tree, "a", flags(OpenFlags::DIRECTORY)).expect("a directory");
    a.mkdir(&mut tree, "b").expect("a directory");
    let create = flags(OpenFlags::CREAT);
    root.open(&mut tree, "/top", create).expect("a file");
    let b = a.open(&mut tree, "b", flags(0)).expect("a directory");
    b.open(&mut tree, "deep", create).expect("a file");
    // Relative paths start at the handle.
    assert!(a.open(&mut tree, "b/deep", flags(0)).is_ok());
    assert!(a.open(&mut tree, "./b/./deep", flags(0)).is_ok());
    assert!(b.open(&mut tree, "../b/deep", flags(0)).is_ok());
    assert!(b.open(&mut tree, "../../top", flags(0)).is_ok());
    assert!(b.open(&mut tree, "../../a/b/deep", flags(0)).is_ok());
    assert!(b.open(&mut tree, "/a/b/../b/deep", flags(0)).is_ok());
    assert_eq!(b.open(&mut tree, "../../..", flags(0)).err(), Some(Errno::ENOENT));
    // The path of a handle is the path of the handle it was opened from,
    // a separator, and the path that was opened.
    let back = b.open(&mut tree, "deep/..", flags(0)).expect("the directory");
    assert_eq!(b.get_path(), "//a/b");
    assert_eq!(back.get_path(), "//a/b/deep/..");
    let up = b.open(&mut tree, "..", flags(0)).expect("the parent");
    assert_eq!(
        names(&up.read_dir(&tree).unwrap()),
        vec![("b".to_string(), FileType::Directory, 0)]
    );
    let same = b.open(&mut tree, ".", flags(0)).expect("itself");
    assert_eq!(
        names(&same.read_dir(&tree).unwrap()),
        vec![("deep".to_string(), FileType::File, 0)]
    );
}

#[test]
fn a_mount_goes_on_top_of_the_name() {
    let mut tree: FileTree<Fs> = FileTree::new();
    tree.mount("/", ramfs()).expect("a mount");
    let root = tree.root();
    root.mkdir(&mut tree, "mnt").expect("a directory");
    let under = root.open(&mut tree, "mnt", flags(0)).expect("a directory");
    under.open(&mut tree, "below", flags(OpenFlags::CREAT)).expect("a file");
    tree.mount("/mnt", ramfs()).expect("a mount");
    // The mounted file system is found under the name now.
    let over = root.open(&mut tree, "/mnt", flags(0)).expect("a directory");
    assert!(over.read_dir(&tree).unwrap().is_empty());
    assert_eq!(root.open(&mut tree, "/mnt/below", flags(0)).err(), Some(Errno::ENOENT));
    over.open(&mut tree, "above", flags(OpenFlags::CREAT)).expect("a file");
    // The directory below is still there, for who holds it.
    assert_eq!(
        names(&under.read_dir(&tree).unwrap()),
        vec![("below".to_string(), FileType::File, 0)]
    );
    // From the mounted root, `..` leads to the directory it is mounted in.
    let up = over.open(&mut tree, "..", flags(0)).expect("the parent");
    assert_eq!(
        names(&up.read_dir(&tree).unwrap()),
        vec![("mnt".to_string(), FileType::Directory, 0)]
    );
    // A second mount goes on top of the first.
    tree.mount("/mnt", ramfs()).expect("a mount");
    let top = root.open(&mut tree, "/mnt", flags(0)).expect("a directory");
    assert!(top.read_dir(&tree).unwrap().is_empty());
    assert_eq!(names(&over.read_dir(&tree).unwrap()).len(), 1);
}

#[test]
fn a_mount_needs_a_name_that_resolves() {
    let mut tree: FileTree<Fs> = FileTree::new();
    tree.mount("/", ramfs()).expect("a mount");
    let root = tree.root();
    root.mkdir(&mut tree, "mnt").expect("a directory");
    assert_eq!(tree.mount("/nothing", ramfs()), Err(Errno::ENOENT));
    assert_eq!(tree.mount("/mnt/nothing", ramfs()), Err(Errno::ENOENT));
    // A path that ends in `.` or `..` names nothing to mount over.
    assert_eq!(tree.mount("/mnt/.", ramfs()), Err(Errno::ENOENT));
    assert_eq!(tree.mount("/mnt/..", ramfs()), Err(Errno::ENOENT));
    assert_eq!(tree.mount("/mnt/", ramfs()), Err(Errno::ENOENT));
    // A relative path is resolved from the root.
    assert_eq!(tree.mount("mnt", ramfs()), Ok(()));
    let over = root.open(&mut tree, "mnt", flags(0)).expect("a directory");
    over.mkdir(&mut tree, "inner").expect("a directory");
    assert_eq!(tree.mount("/mnt/inner", ramfs()), Ok(()));
    let inner = root.open(&mut tree, "/mnt/inner", flags(0)).expect("a directory");
    inner.open(&mut tree, "f", flags(OpenFlags::CREAT)).expect("a file");
    assert!(root.open(&mut tree, "/mnt/inner/f", flags(0)).is_ok());
}

#[test]
fn what_was_looked_up_is_remembered() {
    let mut tree: FileTree<Fs> = FileTree::new();
    tree.mount("/", ramfs()).expect("a mount");
    let root = tree.root();
    let file = root.open(&mut tree, "f", flags(OpenFlags::CREAT)).expect("a file");
    file.writeat(&mut tree, 0, b"kept").expect("a write");
    assert_eq!(root.remove(&mut tree, "f"), Ok(()));
    assert!(root.read_dir(&tree).unwrap().is_empty());
    // The name still resolves to the node that it was looked up as.
    let again = root.open(&mut tree, "f", flags(0)).expect("the file");
    let mut buffer = [0u8; 8];
    assert_eq!(again.readat(&tree, 0, &mut buffer), Ok(4));
    assert_eq!(&buffer[..4], b"kept");
}

#[test]
fn handle_operations_reach_the_node() {
    let mut tree: FileTree<Fs> = FileTree::new();
    tree.mount("/", ramfs()).expect("a mount");
    let root = tree.root();
    let file = root.open(&mut tree, "f", flags(OpenFlags::CREAT)).expect("a file");
    root.mkdir(&mut tree, "d").expect("a directory");
    root.link(&mut tree, "l", "/f").expect("a link");
    root.sym_link(&mut tree, "s", "/d").expect("a link");
    assert_eq!(root.read_dir(&tree).unwrap().len(), 4);
    assert_eq!(root.rmdir(&mut tree, "d"), Ok(()));
    assert_eq!(root.rmdir(&mut tree, "d"), Err(Errno::ENOENT));
    assert_eq!(root.unlink(&mut tree, "l"), Ok(()));
    assert_eq!(root.remove(&mut tree, "s"), Ok(()));
    assert_eq!(
        names(&root.read_dir(&tree).unwrap()),
        vec![("f".to_string(), FileType::File, 0)]
    );
    assert_eq!(file.read_dir(&tree).err(), Some(Errno::ENOTDIR));
    assert_eq!(file.mkdir(&mut tree, "x"), Err(Errno::ENOTDIR));
    let mut buffer = [0u8; 4];
    assert_eq!(root.readat(&tree, 0, &mut buffer), Err(Errno::EISDIR));
    assert_eq!(root.writeat(&mut tree, 0, b"x"), Err(Errno::EISDIR));
    assert_eq!(root.truncate(&mut tree, 0), Err(Errno::EISDIR));
    let times = [TimeSpec { sec: 1, nsec: 1 }, TimeSpec { sec: 2, nsec: 2 }];
    assert_eq!(file.utimes(&mut tree, &times), Ok(()));
    assert_eq!(root.utimes(&mut tree, &times), Err(Errno::EISDIR));
    assert_eq!(file.metadata(&tree).err(), Some(Errno::ENOSYS));
    let mut stat = stat_zero();
    assert_eq!(file.stat(&tree, &mut stat), Err(Errno::ENOSYS));
    let mut statfs = StatFS {
        ftype: 0,
        bsize: 0,
        blocks: 0,
        bfree: 0,
        bavail: 0,
        files: 0,
        ffree: 0,
        fsid: 0,
        namelen: 0,
    };
    assert_eq!(file.statfs(&tree, &mut statfs), Err(Errno::EACCES));
    assert_eq!(file.ioctl(&mut tree, 0, 0), Err(Errno::EACCES));
    assert_eq!(file.flush(&mut tree), Err(Errno::EACCES));
    assert_eq!(file.resolve_link(&tree).err(), Some(Errno::EACCES));
    assert_eq!(
        file.poll(&tree, PollEvent::from_bits(PollEvent::POLLOUT)).err(),
        Some(Errno::EACCES)
    );
}

#[test]
fn a_handle_can_be_duplicated() {
    let mut tree: FileTree<Fs> = FileTree::new();
    tree.mount("/", ramfs()).expect("a mount");
    let root = tree.root();
    let file = root.open(&mut tree, "f", flags(OpenFlags::CREAT)).expect("a file");
    let copy = file.duplicate();
    let clone = file.clone();
    assert_eq!(copy.get_path(), "//f");
    assert_eq!(clone.get_path(), "//f");
    file.writeat(&mut tree, 0, b"shared").expect("a write");
    let mut buffer = [0u8; 8];
    assert_eq!(copy.readat(&tree, 0, &mut buffer), Ok(6));
    assert_eq!(&buffer[..6], b"shared");
    assert_eq!(clone.truncate(&mut tree, 2), Ok(()));
    assert_eq!(file.readat(&tree, 0, &mut buffer), Ok(2));
}

#[test]
fn a_write_through_the_tree_reports_no_space() {
    let mut tree: FileTree<Fs> = FileTree::new();
    tree.mount("/", RamFs::new(pager(1))).expect("a mount");
    let root = tree.root();
    let file = root.open(&mut tree, "f", flags(OpenFlags::CREAT)).expect("a file");
    assert_eq!(file.writeat(&mut tree, 0, &vec![1u8; PAGE_SIZE]), Ok(PAGE_SIZE));
    assert_eq!(file.writeat(&mut tree, PAGE_SIZE, b"x"), Err(Errno::ENOSPC));
    assert_eq!(file.truncate(&mut tree, PAGE_SIZE + 1), Err(Errno::ENOSPC));
    let mut buffer = vec![0u8; 2 * PAGE_SIZE];
    assert_eq!(file.readat(&tree, 0, &mut buffer), Ok(PAGE_SIZE));
}

#[test]
fn a_write_beyond_the_end_leaves_zeros_in_the_gap() {
    let mut fs = ramfs();
    let file = fs.open(0, "f", flags(OpenFlags::CREAT)).expect("a file");
    assert_eq!(fs.writeat(file, 0, &[1u8; 16]), Ok(16));
    // What is cut off does not come back.
    assert_eq!(fs.truncate(file, 3), Ok(()));
    assert_eq!(fs.writeat(file, 8, &[7u8, 7]), Ok(2));
    assert_eq!(read_all(&fs, file, 0, 64), vec![1, 1, 1, 0, 0, 0, 0, 0, 7, 7]);
    // Nor in a later page.
    assert_eq!(fs.writeat(file, 5000, &[2u8; 4]), Ok(4));
    assert_eq!(fs.truncate(file, 10), Ok(()));
    assert_eq!(fs.writeat(file, 4200, &[3u8]), Ok(1));
    let all = read_all(&fs, file, 0, 8192);
    assert_eq!(all.len(), 4201);
    assert!(all[10..4200].iter().all(|b| *b == 0));
    assert_eq!(all[4200], 3);
}

#[test]
fn a_file_that_is_set_to_a_greater_length_reads_zeros() {
    let mut fs = ramfs();
    let file = fs.open(0, "f", flags(OpenFlags::CREAT)).expect("a file");
    assert_eq!(fs.writeat(file, 0, &[5u8; 100]), Ok(100));
    assert_eq!(fs.truncate(file, 0), Ok(()));
    assert_eq!(fs.truncate(file, 50), Ok(()));
    assert_eq!(read_all(&fs, file, 0, 64), vec![0u8; 50]);
    assert_eq!(fs.writeat(file, 4096, &[5u8; 100]), Ok(100));
    assert_eq!(fs.truncate(file, 4090), Ok(()));
    assert_eq!(fs.truncate(file, 4196), Ok(()));
    assert!(read_all(&fs, file, 0, 8192).iter().all(|b| *b == 0));
}

#[test]
fn the_names_of_a_listing_are_distinct() {
    let mut fs = ramfs();
    assert!(fs.open(0, "a", flags(OpenFlags::CREAT)).is_ok());
    assert!(fs.mkdir(0, "b").is_ok());
    assert_eq!(fs.sym_link(0, "c", "/a"), Ok(()));
    assert_eq!(fs.mkdir(0, "a").err(), Some(Errno::EEXIST));
    assert_eq!(fs.sym_link(0, "b", "/a").err(), Some(Errno::EEXIST));
    assert_eq!(fs.open(0, "c", flags(OpenFlags::CREAT)).err(), Some(Errno::EEXIST));
    assert_eq!(fs.remove(0, "a"), Ok(()));
    assert!(fs.mkdir(0, "a").is_ok());
    let listing = names(&fs.read_dir(0).expect("a listing"));
    let mut seen: Vec<String> = listing.iter().map(|entry| entry.0.clone()).collect();
    assert_eq!(seen, vec!["b".to_string(), "c".to_string(), "a".to_string()]);
    seen.sort();
    seen.dedup();
    assert_eq!(seen.len(), 3);
}

#[test]
fn a_time_starts_at_zero() {
    let time = TimeSpec::default();
    assert_eq!((time.sec, time.nsec), (0, 0));
}

#[test]
fn pages_that_a_file_drops_go_back_to_the_page_source() {
    let mut fs = RamFs::new(pager(2));
    let file = fs.open(0, "f", flags(OpenFlags::CREAT)).expect("a file");
    let other = fs.open(0, "g", flags(OpenFlags::CREAT)).expect("a file");
    assert_eq!(fs.writeat(file, 0, &vec![1u8; 2 * PAGE_SIZE]), Ok(2 * PAGE_SIZE));
    assert_eq!(fs.writeat(other, 0, &[1u8]), Err(Errno::ENOSPC));
    // One page goes back, and the other file can have it.
    assert_eq!(fs.truncate(file, PAGE_SIZE), Ok(()));
    assert_eq!(fs.writeat(other, 0, &[1u8]), Ok(1));
    assert_eq!(fs.truncate(other, PAGE_SIZE + 1), Err(Errno::ENOSPC));
    assert_eq!(fs.truncate(file, 0), Ok(()));
    assert_eq!(fs.truncate(other, PAGE_SIZE + 1), Ok(()));
    // A request that fails half way gives back what it got.
    assert_eq!(fs.truncate(other, 0), Ok(()));
    assert_eq!(fs.writeat(file, 0, &vec![1u8; 3 * PAGE_SIZE]), Err(Errno::ENOSPC));
    assert_eq!(fs.writeat(other, 0, &vec![2u8; 2 * PAGE_SIZE]), Ok(2 * PAGE_SIZE));
}
