//! File System base module.
//! Includes the interface definitions and struct definitions that every
//! file system shares.
//!
//! A file system keeps its nodes itself and names each by a number. The
//! operations of a node are operations of the file system that take the
//! node's number. What an operation answers and how it changes the file
//! system is stated over the file system's model, so that code which
//! works with any file system can say exactly what it does.

use vstd::prelude::*;

use crate::config::PAGE_SIZE;
pub use crate::errno::Errno;
use crate::mem::frames::all_zero;
use crate::utils::overlay;

verus! {

/// The flags of an `open`.
#[derive(Debug, Clone, Copy)]
pub struct OpenFlags {
    pub bits: usize,
}

impl OpenFlags {
    pub const RDONLY: usize = 0;

    pub const WRONLY: usize = 1;

    pub const RDWR: usize = 2;

    /// Mask of the access mode.
    pub const ACCMODE: usize = 3;

    pub const CREAT: usize = 0o100;

    pub const EXCL: usize = 0o200;

    pub const NOCTTY: usize = 0o400;

    pub const TRUNC: usize = 0o1000;

    pub const APPEND: usize = 0o2000;

    pub const NONBLOCK: usize = 0o4000;

    pub const DSYNC: usize = 0o10000;

    pub const SYNC: usize = 0o4010000;

    pub const RSYNC: usize = 0o4010000;

    pub const DIRECTORY: usize = 0o200000;

    pub const NOFOLLOW: usize = 0o400000;

    pub const CLOEXEC: usize = 0o2000000;

    pub const ASYNC: usize = 0o20000;

    pub const DIRECT: usize = 0o40000;

    pub const LARGEFILE: usize = 0o100000;

    pub const NOATIME: usize = 0o1000000;

    pub const PATH: usize = 0o10000000;

    pub const TMPFILE: usize = 0o20200000;

    /// The flags with the bits `bits`.
    pub fn from_bits(bits: usize) -> (flags: OpenFlags)
        ensures
            flags.bits == bits,
    {
        OpenFlags { bits }
    }

    /// Whether every bit of `flag` is set.
    pub open spec fn has(self, flag: usize) -> bool {
        self.bits & flag == flag
    }

    /// Whether every bit of `flag` is set.
    #[verifier::when_used_as_spec(has)]
    pub fn contains(self, flag: usize) -> (r: bool)
        ensures
            r == self.has(flag),
    {
        self.bits & flag == flag
    }

    /// The flags with the bits of `flag` set as well.
    pub fn union(self, flag: usize) -> (flags: OpenFlags)
        ensures
            flags.bits == self.bits | flag,
    {
        OpenFlags { bits: self.bits | flag }
    }
}

/// The mode of a file, as `stat` reports it.
#[derive(Debug, Clone, Copy)]
pub struct StatMode {
    pub bits: u32,
}

impl StatMode {
    pub const NULL: u32 = 0;

    /// Type
    pub const TYPE_MASK: u32 = 0o170000;

    /// FIFO
    pub const FIFO: u32 = 0o010000;

    /// character device
    pub const CHAR: u32 = 0o020000;

    /// directory
    pub const DIR: u32 = 0o040000;

    /// block device
    pub const BLOCK: u32 = 0o060000;

    /// ordinary regular file
    pub const FILE: u32 = 0o100000;

    /// symbolic link
    pub const LINK: u32 = 0o120000;

    /// socket
    pub const SOCKET: u32 = 0o140000;

    /// Set-user-ID on execution.
    pub const SET_UID: u32 = 0o4000;

    /// Set-group-ID on execution.
    pub const SET_GID: u32 = 0o2000;

    /// Read, write, execute/search by owner.
    pub const OWNER_MASK: u32 = 0o700;

    /// Read permission, owner.
    pub const OWNER_READ: u32 = 0o400;

    /// Write permission, owner.
    pub const OWNER_WRITE: u32 = 0o200;

    /// Execute/search permission, owner.
    pub const OWNER_EXEC: u32 = 0o100;

    /// Read, write, execute/search by group.
    pub const GROUP_MASK: u32 = 0o70;

    /// Read permission, group.
    pub const GROUP_READ: u32 = 0o40;

    /// Write permission, group.
    pub const GROUP_WRITE: u32 = 0o20;

    /// Execute/search permission, group.
    pub const GROUP_EXEC: u32 = 0o10;

    /// Read, write, execute/search by others.
    pub const OTHER_MASK: u32 = 0o7;

    /// Read permission, others.
    pub const OTHER_READ: u32 = 0o4;

    /// Write permission, others.
    pub const OTHER_WRITE: u32 = 0o2;

    /// Execute/search permission, others.
    pub const OTHER_EXEC: u32 = 0o1;

    /// The mode with the bits `bits`.
    pub fn from_bits(bits: u32) -> (mode: StatMode)
        ensures
            mode.bits == bits,
    {
        StatMode { bits }
    }

    /// Whether every bit of `flag` is set.
    pub open spec fn has(self, flag: u32) -> bool {
        self.bits & flag == flag
    }

    /// Whether every bit of `flag` is set.
    #[verifier::when_used_as_spec(has)]
    pub fn contains(self, flag: u32) -> (r: bool)
        ensures
            r == self.has(flag),
    {
        self.bits & flag == flag
    }
}

/// The events of a `poll`.
#[derive(Debug, Clone, Copy)]
pub struct PollEvent {
    pub bits: u16,
}

impl PollEvent {
    pub const NONE: u16 = 0;

    pub const POLLIN: u16 = 0x001;

    pub const POLLPRI: u16 = 0x002;

    pub const POLLOUT: u16 = 0x004;

    pub const POLLRDNORM: u16 = 0x040;

    pub const POLLRDBAND: u16 = 0x080;

    pub const POLLWRNORM: u16 = 0x100;

    pub const POLLWRBAND: u16 = 0x200;

    pub const POLLMSG: u16 = 0x400;

    pub const POLLREMOVE: u16 = 0x1000;

    pub const POLLRDHUP: u16 = 0x2000;

    pub const POLLERR: u16 = 0x008;

    pub const POLLHUP: u16 = 0x010;

    pub const POLLNVAL: u16 = 0x020;

    /// The events with the bits `bits`.
    pub fn from_bits(bits: u16) -> (events: PollEvent)
        ensures
            events.bits == bits,
    {
        PollEvent { bits }
    }

    /// Whether every bit of `flag` is set.
    pub open spec fn has(self, flag: u16) -> bool {
        self.bits & flag == flag
    }

    /// Whether every bit of `flag` is set.
    #[verifier::when_used_as_spec(has)]
    pub fn contains(self, flag: u16) -> (r: bool)
        ensures
            r == self.has(flag),
    {
        self.bits & flag == flag
    }
}

/// The kind of a file.
#[derive(Debug, Copy, Clone, PartialEq, Eq, Structural)]
pub enum FileType {
    File,
    Directory,
    Device,
    Socket,
    Link,
}

/// From where a seek counts.
#[derive(Debug, Copy, Clone)]
pub enum SeekFrom {
    SET(usize),
    CURRENT(isize),
    END(isize),
}

/// What a node tells of itself.
#[derive(Debug, Clone, Copy)]
pub struct Metadata<'a> {
    pub filename: &'a str,
    pub inode: usize,
    pub file_type: FileType,
    pub size: usize,
    pub childrens: usize,
}

/// One entry of a directory listing.
pub struct DirEntry {
    pub filename: String,
    pub len: usize,
    pub file_type: FileType,
}

/// The model of one entry of a directory listing.
pub struct DirEntryModel {
    pub filename: Seq<char>,
    pub len: usize,
    pub file_type: FileType,
}

impl View for DirEntry {
    type V = DirEntryModel;

    open spec fn view(&self) -> DirEntryModel {
        DirEntryModel { filename: self.filename@, len: self.len, file_type: self.file_type }
    }
}

/// The models of the entries of a directory listing.
pub open spec fn entries_view(entries: Seq<DirEntry>) -> Seq<DirEntryModel> {
    Seq::new(entries.len(), |i: int| entries[i]@)
}

/// A point in time.
#[derive(Clone, Copy, Debug, Default)]
pub struct TimeSpec {
    /// Seconds
    pub sec: u64,
    /// Nanoseconds
    pub nsec: u64,
}

/// Implements Some useful methods for [TimeSpec]
impl TimeSpec {
    /// Get the seconds for now.
    pub const UTIME_NOW: u64 = 0x3fffffff;

    /// Keep the filed time. Not need to change.
    pub const UTIME_OMIT: u64 = 0x3ffffffe;

    /// The time zero.
    pub fn zero() -> (t: TimeSpec)
        ensures
            t.sec == 0,
            t.nsec == 0,
    {
        TimeSpec { sec: 0, nsec: 0 }
    }

    /// The time in nanoseconds.
    pub fn to_nsec(&self) -> (nsec: u64)
        requires
            self.sec * 1_000_000_000 + self.nsec <= u64::MAX,
        ensures
            nsec == self.sec * 1_000_000_000 + self.nsec,
    {
        self.sec * 1_000_000_000 + self.nsec
    }

    /// The time in nanoseconds, where it fits in 64 bits.
    pub fn checked_to_nsec(&self) -> (nsec: Option<u64>)
        ensures
            nsec == (if self.sec * 1_000_000_000 + self.nsec <= u64::MAX {
                Some((self.sec * 1_000_000_000 + self.nsec) as u64)
            } else {
                None
            }),
    {
        match self.sec.checked_mul(1_000_000_000) {
            Some(ns) => ns.checked_add(self.nsec),
            None => None,
        }
    }
}

/// What `stat` reports of a file.
#[derive(Debug, Clone, Copy)]
pub struct Stat {
    /// The device of the file.
    pub dev: u64,
    /// The number of the node.
    pub ino: u64,
    /// The mode of the file.
    pub mode: StatMode,
    /// The number of links to the file.
    pub nlink: u32,
    /// The owner of the file.
    pub uid: u32,
    /// The group of the file.
    pub gid: u32,
    /// The device that the file stands for.
    pub rdev: u64,
    /// Reserved.
    pub __pad: u64,
    /// The size of the file.
    pub size: u64,
    /// The size of a block.
    pub blksize: u32,
    /// Reserved.
    pub __pad2: u32,
    /// The number of blocks that the file takes.
    pub blocks: u64,
    /// The time of the last access.
    pub atime: TimeSpec,
    /// The time of the last change of the content.
    pub mtime: TimeSpec,
    /// The time of the creation.
    pub ctime: TimeSpec,
}

/// What `statfs` reports of a file system.
#[derive(Debug, Clone, Copy)]
pub struct StatFS {
    /// The type of the file system.
    pub ftype: u64,
    /// The best size of a transfer.
    pub bsize: u64,
    /// The number of data blocks.
    pub blocks: u64,
    /// The number of free blocks.
    pub bfree: u64,
    /// The number of blocks that an ordinary user can get.
    pub bavail: u64,
    /// The number of file nodes.
    pub files: u64,
    /// The number of free file nodes.
    pub ffree: u64,
    /// The identifier of the file system.
    pub fsid: u64,
    /// The greatest length of a file name.
    pub namelen: u64,
}

/// The result alias for the [core::result::Result<T, Errno>]
/// This result used in methods of the trait [INodeInterface].
pub type FsResult<T> = Result<T, Errno>;

/// FSPages Container: the physical address of a run of pages, the number
/// of the pages, and the bytes of the first page.
pub struct FSPage {
    addr: usize,
    page_count: usize,
    data: Vec<u8>,
}

impl View for FSPage {
    type V = Seq<u8>;

    closed spec fn view(&self) -> Seq<u8> {
        self.data@
    }
}

impl FSPage {
    /// The physical address of the run, for contracts.
    pub closed spec fn addr_spec(&self) -> usize {
        self.addr
    }

    /// The number of pages of the run, for contracts.
    pub closed spec fn page_count_spec(&self) -> usize {
        self.page_count
    }

    /// Whether the buffer has the size of a page.
    pub open spec fn wf(&self) -> bool {
        self@.len() == PAGE_SIZE
    }

    /// Create a new FSPage instance for the `page_count` pages at the
    /// physical address `addr`. Its buffer holds zeros.
    pub fn new(addr: usize, page_count: usize) -> (page: FSPage)
        ensures
            page.wf(),
            all_zero(page@),
            page.addr_spec() == addr,
            page.page_count_spec() == page_count,
    {
        FSPage { addr, page_count, data: vec![0u8; PAGE_SIZE] }
    }

    /// The physical address of the run.
    #[verifier::when_used_as_spec(addr_spec)]
    pub fn addr(&self) -> (addr: usize)
        ensures
            addr == self.addr_spec(),
    {
        self.addr
    }

    /// The number of pages of the run.
    #[verifier::when_used_as_spec(page_count_spec)]
    pub fn page_count(&self) -> (count: usize)
        ensures
            count == self.page_count_spec(),
    {
        self.page_count
    }

    /// Get the buffer for the page.
    pub fn get_buffer(&self) -> (buffer: &[u8])
        ensures
            buffer@ == self@,
    {
        self.data.as_slice()
    }

    /// Copies the `count` bytes of the page from `offset` on into
    /// `buffer` from `at` on.
    pub fn read(&self, offset: usize, buffer: &mut [u8], at: usize, count: usize)
        requires
            self.wf(),
            offset + count <= PAGE_SIZE,
            at + count <= old(buffer)@.len(),
        ensures
            final(buffer)@ == overlay(
                old(buffer)@,
                at as int,
                self@.subrange(offset as int, offset + count),
            ),
    {
        let total = buffer.len();
        let mut i: usize = 0;
        while i < count
            invariant
                i <= count,
                self.wf(),
                offset + count <= PAGE_SIZE,
                at + count <= buffer@.len(),
                buffer@.len() == total,
                buffer@.len() == old(buffer)@.len(),
                buffer@ == overlay(
                    old(buffer)@,
                    at as int,
                    self@.subrange(offset as int, offset + i),
                ),
            decreases count - i,
        {
            buffer[at + i] = self.data[offset + i];
            i = i + 1;
            assert(buffer@ =~= overlay(
                old(buffer)@,
                at as int,
                self@.subrange(offset as int, offset + i),
            ));
        }
    }

    /// Copies the `count` bytes of `buffer` from `at` on into the page
    /// from `offset` on.
    pub fn write(&mut self, offset: usize, buffer: &[u8], at: usize, count: usize)
        requires
            old(self).wf(),
            offset + count <= PAGE_SIZE,
            at + count <= buffer@.len(),
        ensures
            final(self).wf(),
            final(self).addr_spec() == old(self).addr_spec(),
            final(self).page_count_spec() == old(self).page_count_spec(),
            final(self)@ == overlay(
                old(self)@,
                offset as int,
                buffer@.subrange(at as int, at + count),
            ),
    {
        let total = buffer.len();
        let mut i: usize = 0;
        while i < count
            invariant
                i <= count,
                offset + count <= PAGE_SIZE,
                at + count <= buffer@.len(),
                buffer@.len() == total,
                self.data@.len() == PAGE_SIZE,
                self.addr == old(self).addr,
                self.page_count == old(self).page_count,
                self@ == overlay(old(self)@, offset as int, buffer@.subrange(at as int, at + i)),
            decreases count - i,
        {
            self.data.set(offset + i, buffer[at + i]);
            i = i + 1;
            assert(self@ =~= overlay(
                old(self)@,
                offset as int,
                buffer@.subrange(at as int, at + i),
            ));
        }
    }

    /// Fills the page with zeros from `offset` on.
    pub fn zero_from(&mut self, offset: usize)
        requires
            old(self).wf(),
            offset <= PAGE_SIZE,
        ensures
            final(self).wf(),
            final(self).addr_spec() == old(self).addr_spec(),
            final(self).page_count_spec() == old(self).page_count_spec(),
            final(self)@ == old(self)@.subrange(0, offset as int) + crate::utils::zeros(
                (PAGE_SIZE - offset) as nat,
            ),
    {
        let mut i: usize = offset;
        while i < PAGE_SIZE
            invariant
                offset <= i <= PAGE_SIZE,
                self.data@.len() == PAGE_SIZE,
                self.addr == old(self).addr,
                self.page_count == old(self).page_count,
                forall|k: int| 0 <= k < offset ==> self.data@[k] == old(self).data@[k],
                forall|k: int| offset <= k < i ==> self.data@[k] == 0u8,
            decreases PAGE_SIZE - i,
        {
            self.data.set(i, 0u8);
            i = i + 1;
        }
        assert(self@ =~= old(self)@.subrange(0, offset as int) + crate::utils::zeros(
            (PAGE_SIZE - offset) as nat,
        ));
    }
}

/// The traits includes Generic methods for FileSystem implementations:
/// where the pages of file content come from.
pub trait FSTrait: Sized {
    /// The invariant of the page source.
    spec fn wf(&self) -> bool;

    /// Whether the page source counts the page at the address `addr` as
    /// handed out.
    spec fn lent(&self, addr: usize) -> bool;

    /// Whether the page source, as it is, serves a request for a single
    /// page.
    spec fn serves_page(&self) -> bool;

    /// Allocate for count physical pages. The buffer of the page that is
    /// handed out holds zeros. A single page is handed out exactly when
    /// the source serves one. The page was not handed out before and is
    /// afterwards; what was handed out stays so, and where nothing is
    /// handed out nothing more is.
    fn alloc_page(&mut self, count: usize) -> (r: Option<FSPage>)
        requires
            old(self).wf(),
        ensures
            final(self).wf(),
            count == 1 ==> (r is Some <==> old(self).serves_page()),
            r matches Some(page) ==> page.wf() && all_zero(page@) && page.page_count_spec()
                == count,
            r matches Some(page) ==> !old(self).lent(page.addr_spec()) && final(self).lent(
                page.addr_spec(),
            ),
            forall|addr: usize| old(self).lent(addr) ==> #[trigger] final(self).lent(addr),
            r is None ==> forall|addr: usize|
                #[trigger] final(self).lent(addr) ==> old(self).lent(addr),
    ;

    /// Deallocate count physical pages starting from address. A single
    /// page is not handed out afterwards, and nothing more is handed out
    /// than before.
    fn dealloc_page(&mut self, addr: usize, count: usize)
        requires
            old(self).wf(),
        ensures
            final(self).wf(),
            count == 1 ==> !final(self).lent(addr),
            forall|other: usize| #[trigger] final(self).lent(other) ==> old(self).lent(other),
    ;

    /// Convert physical address to virtual address
    fn phys_to_virt(&self, phys: usize) -> usize;

    /// Convert virtual address to physical address
    fn virt_to_phys(&self, virt: usize) -> usize;
}


/// The model of what a node tells of itself.
pub struct MetadataModel {
    pub filename: Seq<char>,
    pub inode: usize,
    pub file_type: FileType,
    pub size: usize,
    pub childrens: usize,
}

impl<'a> View for Metadata<'a> {
    type V = MetadataModel;

    open spec fn view(&self) -> MetadataModel {
        MetadataModel {
            filename: self.filename@,
            inode: self.inode,
            file_type: self.file_type,
            size: self.size,
            childrens: self.childrens,
        }
    }
}

/// Whether an operation that may need new pages did what its model says,
/// or found no page to be had: then it answers "no space left", where the
/// model would have answered with success, and leaves the model as it
/// was.
pub open spec fn as_modelled_or_no_space<M, T>(
    before: M,
    want: (M, FsResult<T>),
    after: M,
    got: FsResult<T>,
) -> bool {
    ||| (after == want.0 && got == want.1)
    ||| (want.1 is Ok && got == Err::<T, Errno>(Errno::ENOSPC) && after == before)
}

/// The file trait [INodeInterface]: the operations of the nodes of a
/// file system. You can implement it for any file system.
/// All method in the trait return [FsResult], Error is [Errno].
///
/// Each operation comes with its model: a function that says, over the
/// model of the file system, what the operation answers and, where it
/// changes anything, what the file system is afterwards. An operation
/// that has no meaning for a node answers with an error.
pub trait INodeInterface: Sized {
    /// The model of the file system.
    type Model;

    /// The model of the file system.
    spec fn model(&self) -> Self::Model;

    /// The invariant of the file system.
    spec fn wf(&self) -> bool;

    /// What `metadata` answers.
    spec fn metadata_model(m: Self::Model, node: usize) -> FsResult<MetadataModel>;

    /// Get the metadata of the file.
    fn metadata(&self, node: usize) -> (r: FsResult<Metadata<'_>>)
        requires
            self.wf(),
        ensures
            match r {
                Ok(data) => Self::metadata_model(self.model(), node) == Ok::<MetadataModel, Errno>(
                    data@,
                ),
                Err(e) => Self::metadata_model(self.model(), node) == Err::<MetadataModel, Errno>(
                    e,
                ),
            },
    ;

    /// What `readat` reads when it is given room for `count` bytes.
    spec fn readat_model(m: Self::Model, node: usize, offset: usize, count: usize) -> FsResult<
        Seq<u8>,
    >;

    /// Read data to buffer in the offset. The bytes read are laid over
    /// the start of the buffer; their number is returned.
    fn readat(&self, node: usize, offset: usize, buffer: &mut [u8]) -> (r: FsResult<usize>)
        requires
            self.wf(),
        ensures
            final(buffer)@.len() == old(buffer)@.len(),
            match r {
                Ok(n) => {
                    &&& Self::readat_model(
                        self.model(),
                        node,
                        offset,
                        old(buffer)@.len() as usize,
                    ) matches Ok(bytes)
                    &&& bytes.len() == n
                    &&& n <= old(buffer)@.len()
                    &&& final(buffer)@ == overlay(old(buffer)@, 0, bytes)
                },
                Err(e) => {
                    &&& Self::readat_model(self.model(), node, offset, old(buffer)@.len() as usize)
                        == Err::<Seq<u8>, Errno>(e)
                    &&& final(buffer)@ == old(buffer)@
                },
            },
    ;

    /// What `writeat` answers and leaves.
    spec fn writeat_model(m: Self::Model, node: usize, offset: usize, data: Seq<u8>) -> (
        Self::Model,
        FsResult<usize>,
    );

    /// Write the buffer in the offset.
    fn writeat(&mut self, node: usize, offset: usize, buffer: &[u8]) -> (r: FsResult<usize>)
        requires
            old(self).wf(),
        ensures
            final(self).wf(),
            as_modelled_or_no_space(
                old(self).model(),
                Self::writeat_model(old(self).model(), node, offset, buffer@),
                final(self).model(),
                r,
            ),
    ;

    /// What `mkdir` answers and leaves.
    spec fn mkdir_model(m: Self::Model, node: usize, name: Seq<char>) -> (
        Self::Model,
        FsResult<usize>,
    );

    /// Create a new directory with name
    fn mkdir(&mut self, node: usize, name: &str) -> (r: FsResult<usize>)
        requires
            old(self).wf(),
        ensures
            final(self).wf(),
            (final(self).model(), r) == Self::mkdir_model(old(self).model(), node, name@),
    ;

    /// What `rmdir` answers and leaves.
    spec fn rmdir_model(m: Self::Model, node: usize, name: Seq<char>) -> (Self::Model,
        FsResult<()>);

    /// Remove a directory with name
    fn rmdir(&mut self, node: usize, name: &str) -> (r: FsResult<()>)
        requires
            old(self).wf(),
        ensures
            final(self).wf(),
            (final(self).model(), r) == Self::rmdir_model(old(self).model(), node, name@),
    ;

    /// What `remove` answers and leaves.
    spec fn remove_model(m: Self::Model, node: usize, name: Seq<char>) -> (
        Self::Model,
        FsResult<()>,
    );

    /// Remove a file with name
    fn remove(&mut self, node: usize, name: &str) -> (r: FsResult<()>)
        requires
            old(self).wf(),
        ensures
            final(self).wf(),
            (final(self).model(), r) == Self::remove_model(old(self).model(), node, name@),
    ;

    /// What `read_dir` answers.
    spec fn read_dir_model(m: Self::Model, node: usize) -> FsResult<Seq<DirEntryModel>>;

    /// Get the all files(not includes files in the sub-directory) in the current directory
    fn read_dir(&self, node: usize) -> (r: FsResult<Vec<DirEntry>>)
        requires
            self.wf(),
        ensures
            match r {
                Ok(entries) => Self::read_dir_model(self.model(), node) == Ok::<
                    Seq<DirEntryModel>,
                    Errno,
                >(entries_view(entries@)),
                Err(e) => Self::read_dir_model(self.model(), node) == Err::<
                    Seq<DirEntryModel>,
                    Errno,
                >(e),
            },
    ;

    /// What `open` answers and leaves.
    spec fn open_model(m: Self::Model, node: usize, name: Seq<char>, flags: OpenFlags) -> (
        Self::Model,
        FsResult<usize>,
    );

    /// Open a file in the current directory(not includes files in the sub-directory)
    fn open(&mut self, node: usize, name: &str, flags: OpenFlags) -> (r: FsResult<usize>)
        requires
            old(self).wf(),
        ensures
            final(self).wf(),
            (final(self).model(), r) == Self::open_model(old(self).model(), node, name@, flags),
    ;

    /// What `ioctl` answers and leaves.
    spec fn ioctl_model(m: Self::Model, node: usize, command: usize, arg: usize) -> (
        Self::Model,
        FsResult<usize>,
    );

    /// IOCTL for device and socket
    fn ioctl(&mut self, node: usize, command: usize, arg: usize) -> (r: FsResult<usize>)
        requires
            old(self).wf(),
        ensures
            final(self).wf(),
            (final(self).model(), r) == Self::ioctl_model(old(self).model(), node, command, arg),
    ;

    /// What `truncate` answers and leaves.
    spec fn truncate_model(m: Self::Model, node: usize, size: usize) -> (Self::Model, FsResult<()>);

    /// truncate the file with size
    fn truncate(&mut self, node: usize, size: usize) -> (r: FsResult<()>)
        requires
            old(self).wf(),
        ensures
            final(self).wf(),
            as_modelled_or_no_space(
                old(self).model(),
                Self::truncate_model(old(self).model(), node, size),
                final(self).model(),
                r,
            ),
    ;

    /// What `flush` answers and leaves.
    spec fn flush_model(m: Self::Model, node: usize) -> (Self::Model, FsResult<()>);

    /// Flush the file cache.
    fn flush(&mut self, node: usize) -> (r: FsResult<()>)
        requires
            old(self).wf(),
        ensures
            final(self).wf(),
            (final(self).model(), r) == Self::flush_model(old(self).model(), node),
    ;

    /// What `resolve_link` answers.
    spec fn resolve_link_model(m: Self::Model, node: usize) -> FsResult<Seq<char>>;

    /// Get the linked path of the link file.
    fn resolve_link(&self, node: usize) -> (r: FsResult<String>)
        requires
            self.wf(),
        ensures
            match r {
                Ok(path) => Self::resolve_link_model(self.model(), node) == Ok::<Seq<char>, Errno>(
                    path@,
                ),
                Err(e) => Self::resolve_link_model(self.model(), node) == Err::<Seq<char>, Errno>(
                    e,
                ),
            },
    ;

    /// What `link` answers and leaves.
    spec fn link_model(m: Self::Model, node: usize, name: Seq<char>, src: Seq<char>) -> (
        Self::Model,
        FsResult<()>,
    );

    /// Create a link file in the current directory with filename(name) and link path(src).
    ///
    /// Hardlink the link file
    fn link(&mut self, node: usize, name: &str, src: &str) -> (r: FsResult<()>)
        requires
            old(self).wf(),
        ensures
            final(self).wf(),
            (final(self).model(), r) == Self::link_model(old(self).model(), node, name@, src@),
    ;

    /// What `sym_link` answers and leaves.
    spec fn sym_link_model(m: Self::Model, node: usize, name: Seq<char>, src: Seq<char>) -> (
        Self::Model,
        FsResult<()>,
    );

    /// Create a symbolic link file in the current directory with filename(name) and link path(src).
    ///
    /// Soft link
    fn sym_link(&mut self, node: usize, name: &str, src: &str) -> (r: FsResult<()>)
        requires
            old(self).wf(),
        ensures
            final(self).wf(),
            (final(self).model(), r) == Self::sym_link_model(old(self).model(), node, name@, src@),
    ;

    /// What `unlink` answers and leaves.
    spec fn unlink_model(m: Self::Model, node: usize, name: Seq<char>) -> (
        Self::Model,
        FsResult<()>,
    );

    /// Remove the link.
    fn unlink(&mut self, node: usize, name: &str) -> (r: FsResult<()>)
        requires
            old(self).wf(),
        ensures
            final(self).wf(),
            (final(self).model(), r) == Self::unlink_model(old(self).model(), node, name@),
    ;

    /// What `stat` answers and leaves in the record it is given.
    spec fn stat_model(m: Self::Model, node: usize, stat: Stat) -> (Stat, FsResult<()>);

    /// Get the [Stat] information of the file or directory.
    fn stat(&self, node: usize, stat: &mut Stat) -> (r: FsResult<()>)
        requires
            self.wf(),
        ensures
            (*final(stat), r) == Self::stat_model(self.model(), node, *old(stat)),
    ;

    /// What `statfs` answers and leaves in the record it is given.
    spec fn statfs_model(m: Self::Model, node: usize, statfs: StatFS) -> (StatFS, FsResult<()>);

    /// get filesystem statistics
    fn statfs(&self, node: usize, statfs: &mut StatFS) -> (r: FsResult<()>)
        requires
            self.wf(),
        ensures
            (*final(statfs), r) == Self::statfs_model(self.model(), node, *old(statfs)),
    ;

    /// What `utimes` answers and leaves.
    spec fn utimes_model(m: Self::Model, node: usize, times: Seq<TimeSpec>) -> (
        Self::Model,
        FsResult<()>,
    );

    /// Change the file's time information
    fn utimes(&mut self, node: usize, times: &[TimeSpec]) -> (r: FsResult<()>)
        requires
            old(self).wf(),
        ensures
            final(self).wf(),
            (final(self).model(), r) == Self::utimes_model(old(self).model(), node, times@),
    ;

    /// What `poll` answers.
    spec fn poll_model(m: Self::Model, node: usize, events: PollEvent) -> FsResult<PollEvent>;

    /// Poll a device or socket file.
    fn poll(&self, node: usize, events: PollEvent) -> (r: FsResult<PollEvent>)
        requires
            self.wf(),
        ensures
            r == Self::poll_model(self.model(), node, events),
    ;
}

/// A file system that can be mounted: it has a root directory and a name.
pub trait FileSystem: INodeInterface {
    /// The number of the root directory.
    spec fn root_model(m: Self::Model) -> usize;

    /// The root directory.
    fn root_dir(&self) -> (root: usize)
        requires
            self.wf(),
        ensures
            root == Self::root_model(self.model()),
    ;

    /// The name of the kind of file system.
    fn name(&self) -> &str;

    /// Writes what the file system holds back to where it is kept. A
    /// file system that cannot is not permitted to.
    fn flush_all(&self) -> (r: FsResult<()>)
        ensures
            !self.can_flush() ==> r == Err::<(), Errno>(Errno::EPERM),
    {
        Err(Errno::EPERM)
    }

    /// Whether the file system can write what it holds back to where it
    /// is kept. A file system that does not say otherwise cannot.
    open spec fn can_flush(&self) -> bool {
        false
    }
}

} // verus!
