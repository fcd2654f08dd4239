//! The model of the in-memory file system: its nodes, what each
//! operation answers and leaves, and what holds of the operations
//! together.

use vstd::prelude::*;

use crate::config::PAGE_SIZE;
use crate::fs::base::{DirEntryModel, Errno, FileType, FsResult, OpenFlags, TimeSpec};
use crate::utils::{overlay, zeros};

verus! {

/// The model of a node of the file system.
#[verifier::ext_equal]
pub enum NodeModel {
    /// A file: its name, its length, the bytes of its pages one after
    /// the other, and its times of creation, access and change.
    File { name: Seq<char>, len: usize, storage: Seq<u8>, times: Seq<TimeSpec> },
    /// A directory: its name and the numbers of its children, in the
    /// order in which they were created.
    Dir { name: Seq<char>, children: Seq<usize> },
    /// A link: its name and the path it stands for.
    Link { name: Seq<char>, target: Seq<char> },
}

impl NodeModel {
    /// The name of the node.
    pub open spec fn name(self) -> Seq<char> {
        match self {
            NodeModel::File { name, .. } => name,
            NodeModel::Dir { name, .. } => name,
            NodeModel::Link { name, .. } => name,
        }
    }

    /// The entry that a directory listing shows for the node.
    pub open spec fn entry(self) -> DirEntryModel {
        match self {
            NodeModel::File { name, len, .. } => DirEntryModel {
                filename: name,
                len,
                file_type: FileType::File,
            },
            NodeModel::Dir { name, .. } => DirEntryModel {
                filename: name,
                len: 0,
                file_type: FileType::Directory,
            },
            NodeModel::Link { name, .. } => DirEntryModel {
                filename: name,
                len: 0,
                file_type: FileType::Link,
            },
        }
    }

    /// A file without content.
    pub open spec fn empty_file(name: Seq<char>) -> NodeModel {
        NodeModel::File {
            name,
            len: 0,
            storage: Seq::empty(),
            times: seq![
                TimeSpec { sec: 0, nsec: 0 },
                TimeSpec { sec: 0, nsec: 0 },
                TimeSpec { sec: 0, nsec: 0 },
            ],
        }
    }

    /// A directory without children.
    pub open spec fn empty_dir(name: Seq<char>) -> NodeModel {
        NodeModel::Dir { name, children: Seq::empty() }
    }
}

/// The model of the in-memory file system: its nodes, by number.
#[verifier::ext_equal]
pub struct RamFsModel {
    pub nodes: Seq<NodeModel>,
}

/// Which children an operation removes: `rmdir` removes directories,
/// `remove` and `unlink` remove files and links.
#[derive(Clone, Copy, Debug, PartialEq, Eq, Structural)]
pub enum Removal {
    Directories,
    FilesAndLinks,
}

impl RamFsModel {
    /// Whether `node` is the number of a node.
    pub open spec fn has(self, node: usize) -> bool {
        node < self.nodes.len()
    }

    /// The first of `children`, from place `from` on, that has the name
    /// `name`.
    pub open spec fn find_from(self, children: Seq<usize>, name: Seq<char>, from: int) -> Option<
        usize,
    >
        decreases children.len() - from,
    {
        if from < 0 || from >= children.len() {
            None
        } else if self.nodes[children[from] as int].name() == name {
            Some(children[from])
        } else {
            self.find_from(children, name, from + 1)
        }
    }

    /// The first of `children` that has the name `name`.
    pub open spec fn find(self, children: Seq<usize>, name: Seq<char>) -> Option<usize> {
        self.find_from(children, name, 0)
    }

    /// Whether a removal of the kind `what` under the name `name` takes
    /// the node `child` away.
    pub open spec fn removes(self, child: usize, name: Seq<char>, what: Removal) -> bool {
        match self.nodes[child as int] {
            NodeModel::Dir { name: n, .. } => what == Removal::Directories && n == name,
            NodeModel::File { name: n, .. } => what == Removal::FilesAndLinks && n == name,
            NodeModel::Link { name: n, .. } => what == Removal::FilesAndLinks && n == name,
        }
    }

    /// What is left of `children` after such a removal, in their order.
    pub open spec fn without(self, children: Seq<usize>, name: Seq<char>, what: Removal) -> Seq<
        usize,
    >
        decreases children.len(),
    {
        if children.len() == 0 {
            children
        } else {
            let rest = self.without(children.drop_last(), name, what);
            if self.removes(children.last(), name, what) {
                rest
            } else {
                rest.push(children.last())
            }
        }
    }

    /// The file system with `child` as a new node and as the last child
    /// of the directory `dir`.
    pub open spec fn with_child(self, dir: usize, child: NodeModel) -> RamFsModel {
        RamFsModel {
            nodes: self.nodes.update(
                dir as int,
                NodeModel::Dir {
                    name: self.nodes[dir as int].name(),
                    children: self.nodes[dir as int]->Dir_children.push(self.nodes.len() as usize),
                },
            ).push(child),
        }
    }

    /// The file system with the node `node` replaced.
    pub open spec fn with_node(self, node: usize, new: NodeModel) -> RamFsModel {
        RamFsModel { nodes: self.nodes.update(node as int, new) }
    }

    /// Creates a node under the name `name` in the directory `node`,
    /// unless the name is taken there.
    pub open spec fn create(self, node: usize, child: NodeModel) -> (RamFsModel, FsResult<usize>) {
        if !self.has(node) {
            (self, Err(Errno::EBADF))
        } else {
            match self.nodes[node as int] {
                NodeModel::Dir { children, .. } => match self.find(children, child.name()) {
                    Some(_) => (self, Err(Errno::EEXIST)),
                    None => (self.with_child(node, child), Ok(self.nodes.len() as usize)),
                },
                _ => (self, Err(Errno::ENOTDIR)),
            }
        }
    }

    /// Opens the child `name` of the directory `node`. With the flag
    /// `CREAT` a file without content is created under the name, unless
    /// the name is taken; without it the first child of that name is
    /// found, if there is one.
    pub open spec fn open(self, node: usize, name: Seq<char>, flags: OpenFlags) -> (
        RamFsModel,
        FsResult<usize>,
    ) {
        if flags.has(OpenFlags::CREAT) {
            self.create(node, NodeModel::empty_file(name))
        } else if !self.has(node) {
            (self, Err(Errno::EBADF))
        } else {
            match self.nodes[node as int] {
                NodeModel::Dir { children, .. } => match self.find(children, name) {
                    Some(child) => (self, Ok(child)),
                    None => (self, Err(Errno::ENOENT)),
                },
                _ => (self, Err(Errno::ENOTDIR)),
            }
        }
    }

    /// Creates a link to `src` under the name `name` in the directory
    /// `node`, unless the name is taken there.
    pub open spec fn link(self, node: usize, name: Seq<char>, src: Seq<char>) -> (
        RamFsModel,
        FsResult<()>,
    ) {
        let (after, r) = self.create(node, NodeModel::Link { name, target: src });
        (
            after,
            match r {
                Ok(_) => Ok(()),
                Err(e) => Err(e),
            },
        )
    }

    /// Takes the children of the kind `what` and the name `name` out of
    /// the directory `node`. It succeeds if and only if one was there.
    pub open spec fn take_out(self, node: usize, name: Seq<char>, what: Removal) -> (
        RamFsModel,
        FsResult<()>,
    ) {
        if !self.has(node) {
            (self, Err(Errno::EBADF))
        } else {
            match self.nodes[node as int] {
                NodeModel::Dir { name: dir_name, children } => {
                    let left = self.without(children, name, what);
                    if left.len() < children.len() {
                        (
                            self.with_node(node, NodeModel::Dir { name: dir_name, children: left }),
                            Ok(()),
                        )
                    } else {
                        (self, Err(Errno::ENOENT))
                    }
                },
                _ => (self, Err(Errno::ENOTDIR)),
            }
        }
    }

    /// The listing of the directory `node`: one entry for each child, in
    /// their order.
    pub open spec fn read_dir(self, node: usize) -> FsResult<Seq<DirEntryModel>> {
        if !self.has(node) {
            Err(Errno::EBADF)
        } else {
            match self.nodes[node as int] {
                NodeModel::Dir { children, .. } => Ok(
                    Seq::new(children.len(), |i: int| self.nodes[children[i] as int].entry()),
                ),
                _ => Err(Errno::ENOTDIR),
            }
        }
    }

    /// The error with which an operation on the content of the node
    /// `node` is refused, where `node` is no file.
    pub open spec fn not_a_file(self, node: usize) -> Option<Errno> {
        if !self.has(node) {
            Some(Errno::EBADF)
        } else {
            match self.nodes[node as int] {
                NodeModel::File { .. } => None,
                NodeModel::Dir { .. } => Some(Errno::EISDIR),
                NodeModel::Link { .. } => Some(Errno::EBADF),
            }
        }
    }

    /// The bytes that a read of up to `count` bytes at `offset` yields:
    /// the part of the range that lies within the file's length.
    pub open spec fn readat(self, node: usize, offset: usize, count: usize) -> FsResult<Seq<u8>> {
        match self.not_a_file(node) {
            Some(e) => Err(e),
            None => {
                let len = self.nodes[node as int]->File_len;
                let storage = self.nodes[node as int]->File_storage;
                if offset >= len {
                    Ok(Seq::empty())
                } else if count <= len - offset {
                    Ok(storage.subrange(offset as int, offset + count))
                } else {
                    Ok(storage.subrange(offset as int, len as int))
                }
            },
        }
    }

    /// Writes `data` at `offset`: the file's pages grow to cover the end
    /// of the write, the bytes are laid over them, and the length grows
    /// to the end of the write where that lies beyond it. A write that
    /// would end beyond the last page that a length can cover is refused.
    pub open spec fn writeat(self, node: usize, offset: usize, data: Seq<u8>) -> (
        RamFsModel,
        FsResult<usize>,
    ) {
        match self.not_a_file(node) {
            Some(e) => (self, Err(e)),
            None => {
                let file = self.nodes[node as int];
                let end = offset + data.len();
                if end + PAGE_SIZE - 1 > usize::MAX {
                    (self, Err(Errno::EINVAL))
                } else {
                    let grown = grow(file->File_storage, pages_for(end));
                    (
                        self.with_node(
                            node,
                            NodeModel::File {
                                name: file->File_name,
                                len: if end > file->File_len {
                                    end as usize
                                } else {
                                    file->File_len
                                },
                                storage: overlay(grown, offset as int, data),
                                times: file->File_times,
                            },
                        ),
                        Ok(data.len() as usize),
                    )
                }
            },
        }
    }

    /// Sets the length of the file to `size`. Where the file has pages
    /// beyond those that `size` needs, they are dropped and the rest of
    /// the last page is filled with zeros; where it has too few, zero
    /// pages are added.
    pub open spec fn truncate(self, node: usize, size: usize) -> (RamFsModel, FsResult<()>) {
        match self.not_a_file(node) {
            Some(e) => (self, Err(e)),
            None => {
                let file = self.nodes[node as int];
                if size + PAGE_SIZE - 1 > usize::MAX {
                    (self, Err(Errno::EINVAL))
                } else {
                    let room = pages_for(size as int) * PAGE_SIZE;
                    (
                        self.with_node(
                            node,
                            NodeModel::File {
                                name: file->File_name,
                                len: size,
                                storage: if room <= file->File_storage.len() {
                                    file->File_storage.subrange(0, size as int) + zeros(
                                        (room - size) as nat,
                                    )
                                } else {
                                    grow(file->File_storage, pages_for(size as int))
                                },
                                times: file->File_times,
                            },
                        ),
                        Ok(()),
                    )
                }
            },
        }
    }

    /// Sets the times of access and of change of the file to the first
    /// two of `times`, each unless its nanoseconds say to leave it.
    pub open spec fn utimes(self, node: usize, times: Seq<TimeSpec>) -> (RamFsModel, FsResult<()>) {
        match self.not_a_file(node) {
            Some(e) => (self, Err(e)),
            None => {
                let file = self.nodes[node as int];
                if times.len() < 2 {
                    (self, Err(Errno::EINVAL))
                } else {
                    let accessed = if times[0].nsec != TimeSpec::UTIME_OMIT {
                        file->File_times.update(1, times[0])
                    } else {
                        file->File_times
                    };
                    let changed = if times[1].nsec != TimeSpec::UTIME_OMIT {
                        accessed.update(2, times[1])
                    } else {
                        accessed
                    };
                    (
                        self.with_node(
                            node,
                            NodeModel::File {
                                name: file->File_name,
                                len: file->File_len,
                                storage: file->File_storage,
                                times: changed,
                            },
                        ),
                        Ok(()),
                    )
                }
            },
        }
    }
}

/// The number of pages that `bytes` bytes need.
pub open spec fn pages_for(bytes: int) -> int {
    (bytes + PAGE_SIZE - 1) / (PAGE_SIZE as int)
}

/// `storage` with zero bytes added up to `pages` pages, where it is
/// shorter.
pub open spec fn grow(storage: Seq<u8>, pages: int) -> Seq<u8> {
    if pages * PAGE_SIZE > storage.len() {
        storage + zeros((pages * PAGE_SIZE - storage.len()) as nat)
    } else {
        storage
    }
}

/// Whether the storage holds zeros from the byte at `len` on.
pub open spec fn tail_is_zero(len: usize, storage: Seq<u8>) -> bool {
    forall|i: int| len <= i < storage.len() ==> storage[i] == 0
}

/// Whether the storage of the file `file` is a whole number of pages
/// that covers its length and holds zeros beyond it.
pub open spec fn file_valid(file: NodeModel) -> bool {
    &&& file->File_len <= file->File_storage.len()
    &&& file->File_storage.len() % PAGE_SIZE as nat == 0
    &&& file->File_storage.len() <= usize::MAX
    &&& tail_is_zero(file->File_len, file->File_storage)
}

/// Whether `child` can be created: a file is valid, and a directory has
/// no children.
pub open spec fn can_be_created(child: NodeModel) -> bool {
    match child {
        NodeModel::File { .. } => file_valid(child),
        NodeModel::Dir { children, .. } => children.len() == 0,
        NodeModel::Link { .. } => true,
    }
}

impl RamFsModel {
    /// Whether no two of `children` have the same name.
    pub open spec fn distinct_names(self, children: Seq<usize>) -> bool {
        forall|i: int, j: int|
            0 <= i < j < children.len() ==> self.nodes[#[trigger] children[i] as int].name()
                != self.nodes[#[trigger] children[j] as int].name()
    }

    /// Whether the file system hangs together: node 0 is a directory;
    /// every directory lists nodes of the file system, no two of them
    /// under the same name; and every file's storage is a whole number
    /// of pages that covers its length and holds zeros beyond it.
    pub open spec fn valid(self) -> bool {
        &&& self.nodes.len() >= 1
        &&& self.nodes[0] is Dir
        &&& forall|n: int, k: int|
            0 <= n < self.nodes.len() && self.nodes[n] is Dir && 0 <= k
                < self.nodes[n]->Dir_children.len() ==> (#[trigger] self.nodes[n]->Dir_children[k])
                < self.nodes.len()
        &&& forall|n: int|
            0 <= n < self.nodes.len() && (#[trigger] self.nodes[n]) is Dir
                ==> self.distinct_names(self.nodes[n]->Dir_children)
        &&& forall|n: int|
            0 <= n < self.nodes.len() && (#[trigger] self.nodes[n]) is File ==> file_valid(
                self.nodes[n],
            )
    }

    /// What is found from `from` on is the first child from there on that
    /// has the name; nothing is found only where no child from there on has it.
    pub proof fn lemma_find(self, children: Seq<usize>, name: Seq<char>, from: int)
        requires
            0 <= from,
        ensures
            match self.find_from(children, name, from) {
                Some(child) => exists|i: int|
                    {
                        &&& from <= i < children.len()
                        &&& #[trigger] children[i] == child
                        &&& self.nodes[child as int].name() == name
                        &&& forall|j: int|
                            from <= j < i ==> self.nodes[#[trigger] children[j] as int].name()
                                != name
                    },
                None => forall|i: int|
                    from <= i < children.len() ==> self.nodes[#[trigger] children[i] as int].name()
                        != name,
            },
        decreases children.len() - from,
    {
        if from < children.len() {
            if self.nodes[children[from] as int].name() == name {
                assert(children[from] == children[from]);
            } else {
                self.lemma_find(children, name, from + 1);
                match self.find_from(children, name, from + 1) {
                    Some(child) => {
                        let i = choose|i: int|
                            {
                                &&& from + 1 <= i < children.len()
                                &&& #[trigger] children[i] == child
                                &&& self.nodes[child as int].name() == name
                                &&& forall|j: int|
                                    from + 1 <= j < i ==>
                                        self.nodes[#[trigger] children[j] as int].name()
                                        != name
                            };
                        assert forall|j: int| from <= j < i implies
                            self.nodes[#[trigger] children[j] as int].name()
                            != name by {
                            if j == from {
                            }
                        }
                    },
                    None => {
                        assert forall|i: int| from <= i < children.len() implies
                            self.nodes[#[trigger] children[i] as int].name()
                            != name by {
                            if i == from {
                            }
                        }
                    },
                }
            }
        }
    }

    /// Opening a name that no child of a directory has, without the flag
    /// to create it, fails with "no such entry" and changes nothing.
    pub proof fn lemma_open_missing(self, dir: usize, name: Seq<char>, flags: OpenFlags)
        requires
            self.has(dir),
            self.nodes[dir as int] is Dir,
            !flags.has(OpenFlags::CREAT),
            forall|i: int|
                0 <= i < self.nodes[dir as int]->Dir_children.len() ==> self.nodes[(
                #[trigger] self.nodes[dir as int]->Dir_children[i]) as int].name() != name,
        ensures
            self.open(dir, name, flags) == (self, Err::<usize, Errno>(Errno::ENOENT)),
    {
        let children = self.nodes[dir as int]->Dir_children;
        self.lemma_find(children, name, 0);
        if self.find(children, name) is Some {
            let child = self.find(children, name)->Some_0;
            let i = choose|i: int|
                0 <= i < children.len() && #[trigger] children[i] == child
                    && self.nodes[child as int].name() == name;
            assert(self.nodes[children[i] as int].name() != name);
        }
    }

    /// Creating a name that a child of a directory has, be it as a file,
    /// as a directory or as a link, fails with "already exists" and
    /// changes nothing.
    pub proof fn lemma_create_existing(
        self,
        dir: usize,
        name: Seq<char>,
        src: Seq<char>,
        flags: OpenFlags,
        i: int,
    )
        requires
            self.has(dir),
            self.nodes[dir as int] is Dir,
            0 <= i < self.nodes[dir as int]->Dir_children.len(),
            self.nodes[self.nodes[dir as int]->Dir_children[i] as int].name() == name,
            flags.has(OpenFlags::CREAT),
        ensures
            self.open(dir, name, flags) == (self, Err::<usize, Errno>(Errno::EEXIST)),
            self.create(dir, NodeModel::empty_dir(name)) == (
                self,
                Err::<usize, Errno>(Errno::EEXIST),
            ),
            self.link(dir, name, src) == (self, Err::<(), Errno>(Errno::EEXIST)),
    {
        let children = self.nodes[dir as int]->Dir_children;
        self.lemma_find(children, name, 0);
        assert(self.nodes[children[i] as int].name() == name);
    }

    /// What was written is read back: a read at the offset of a write
    /// that took place yields the bytes written, and nothing more where
    /// the write reached the end of the file.
    pub proof fn lemma_read_after_write(self, node: usize, offset: usize, data: Seq<u8>,
        count: usize)
        requires
            self.valid(),
            self.not_a_file(node) is None,
            offset + data.len() + PAGE_SIZE - 1 <= usize::MAX,
            count >= data.len(),
        ensures
            ({
                let (after, r) = self.writeat(node, offset, data);
                &&& r == Ok::<usize, Errno>(data.len() as usize)
                &&& after.valid()
                &&& after.readat(node, offset, data.len() as usize) == Ok::<Seq<u8>, Errno>(data)
                &&& self.nodes[node as int]->File_len <= offset + data.len() ==> after.readat(
                    node,
                    offset,
                    count,
                ) == Ok::<Seq<u8>, Errno>(data)
            }),
    {
        let (after, r) = self.writeat(node, offset, data);
        let file = self.nodes[node as int];
        let end = offset + data.len();
        let grown = grow(file->File_storage, pages_for(end));
        let written = overlay(grown, offset as int, data);
        assert(pages_for(end) * PAGE_SIZE >= end);
        assert(grown.len() >= end);
        assert(grown.len() % PAGE_SIZE as nat == 0);
        assert(written.subrange(offset as int, end) =~= data);
        if data.len() == 0 {
            assert(written.subrange(offset as int, offset as int) =~= Seq::<u8>::empty());
            assert(data =~= Seq::<u8>::empty());
        }
        assert(after.valid()) by {
            assert forall|n: int, k: int|
                0 <= n < after.nodes.len() && after.nodes[n] is Dir && 0 <= k
                    < after.nodes[n]->Dir_children.len() implies (
            #[trigger] after.nodes[n]->Dir_children[k]) < after.nodes.len() by {
                assert(after.nodes[n] == self.nodes[n]);
                assert(self.nodes[n]->Dir_children[k] < self.nodes.len());
            }
            assert forall|n: int|
                0 <= n < after.nodes.len() && (#[trigger] after.nodes[n]) is File implies {
                &&& after.nodes[n]->File_len <= after.nodes[n]->File_storage.len()
                &&& after.nodes[n]->File_storage.len() % PAGE_SIZE as nat == 0
                &&& after.nodes[n]->File_storage.len() <= usize::MAX
            } by {
                if n != node {
                    assert(after.nodes[n] == self.nodes[n]);
                } else {
                    assert(self.nodes[n] is File);
                }
            }
        }
    }

    /// A file that was cut down is read up to its new length: a read
    /// from the start yields the first bytes of what the file held, as
    /// many as the new length says.
    pub proof fn lemma_read_after_truncate(self, node: usize, size: usize, count: usize)
        requires
            self.valid(),
            self.not_a_file(node) is None,
            size <= self.nodes[node as int]->File_len,
            count >= size,
        ensures
            ({
                let (after, r) = self.truncate(node, size);
                &&& r is Ok
                &&& after.readat(node, 0, count) == Ok::<Seq<u8>, Errno>(
                    self.nodes[node as int]->File_storage.subrange(0, size as int),
                )
                &&& after.readat(node, 0, count) == self.readat(node, 0, size)
            }),
    {
        let (after, r) = self.truncate(node, size);
        let file = self.nodes[node as int];
        let storage = file->File_storage;
        assert(self.nodes[node as int] is File);
        assert(size <= storage.len());
        let room = pages_for(size as int) * PAGE_SIZE;
        assert(room <= storage.len()) by {
            assert(storage.len() % PAGE_SIZE as nat == 0);
        }
        let cut = storage.subrange(0, size as int) + zeros((room - size) as nat);
        assert(cut.subrange(0, size as int) =~= storage.subrange(0, size as int));
        if size == 0 {
            assert(storage.subrange(0, 0) =~= Seq::<u8>::empty());
        }
    }
}

impl RamFsModel {
    /// What a removal leaves of children with distinct names are some of
    /// them, still with distinct names.
    pub proof fn lemma_without(self, children: Seq<usize>, name: Seq<char>, what: Removal)
        requires
            self.distinct_names(children),
        ensures
            self.distinct_names(self.without(children, name, what)),
            forall|k: int|
                0 <= k < self.without(children, name, what).len() ==> exists|j: int|
                    0 <= j < children.len() && children[j] == #[trigger] self.without(
                        children,
                        name,
                        what,
                    )[k],
        decreases children.len(),
    {
        if children.len() > 0 {
            let front = children.drop_last();
            let last = children.last();
            assert(self.distinct_names(front)) by {
                assert forall|i: int, j: int| 0 <= i < j < front.len() implies self.nodes[
                    #[trigger] front[i] as int].name()
                    != self.nodes[#[trigger] front[j] as int].name() by {
                    assert(front[i] == children[i] && front[j] == children[j]);
                }
            }
            self.lemma_without(front, name, what);
            let rest = self.without(front, name, what);
            let left = self.without(children, name, what);
            assert forall|k: int| 0 <= k < left.len() implies exists|j: int|
                0 <= j < children.len() && children[j] == #[trigger] left[k] by {
                if k < rest.len() {
                    let j = choose|j: int| 0 <= j < front.len() && front[j] == rest[k];
                    assert(children[j] == left[k]);
                } else {
                    assert(children[children.len() - 1] == left[k]);
                }
            }
            assert forall|a: int, b: int| 0 <= a < b < left.len() implies self.nodes[
                #[trigger] left[a] as int].name()
                != self.nodes[#[trigger] left[b] as int].name() by {
                if b < rest.len() {
                    assert(left[a] == rest[a] && left[b] == rest[b]);
                } else {
                    let j = choose|j: int| 0 <= j < front.len() && front[j] == rest[a];
                    assert(left[a] == children[j]);
                    assert(left[b] == children[children.len() - 1]);
                }
            }
        }
    }

    /// A file system that hangs together still does after a node was
    /// created in it.
    pub proof fn lemma_create_valid(self, node: usize, child: NodeModel)
        requires
            self.valid(),
            self.nodes.len() <= usize::MAX,
            can_be_created(child),
        ensures
            self.create(node, child).0.valid(),
    {
        let after = self.create(node, child).0;
        if after != self {
            let children = self.nodes[node as int]->Dir_children;
            let id = self.nodes.len() as int;
            self.lemma_find(children, child.name(), 0);
            assert(after == self.with_child(node, child));
            assert forall|n: int| 0 <= n < id implies (#[trigger] after.nodes[n]).name()
                == self.nodes[n].name() by {}
            assert forall|n: int, k: int|
                0 <= n < after.nodes.len() && after.nodes[n] is Dir && 0 <= k
                    < after.nodes[n]->Dir_children.len() implies (
            #[trigger] after.nodes[n]->Dir_children[k]) < after.nodes.len() by {
                if n != node && n < id {
                    assert(after.nodes[n] == self.nodes[n]);
                    assert(self.nodes[n]->Dir_children[k] < self.nodes.len());
                } else if n == node && k < children.len() {
                    assert(self.nodes[n]->Dir_children[k] < self.nodes.len());
                }
            }
            assert forall|n: int|
                0 <= n < after.nodes.len() && (#[trigger] after.nodes[n]) is Dir
                    implies after.distinct_names(after.nodes[n]->Dir_children) by {
                let list = after.nodes[n]->Dir_children;
                assert forall|i: int, j: int| 0 <= i < j < list.len() implies after.nodes[
                    #[trigger] list[i] as int].name()
                    != after.nodes[#[trigger] list[j] as int].name() by {
                    if n == node {
                        assert(list == children.push(id as usize));
                        assert(children[i] < self.nodes.len());
                        if j < children.len() {
                            assert(children[j] < self.nodes.len());
                            assert(self.distinct_names(children));
                        } else {
                            assert(after.nodes[list[j] as int] == child);
                        }
                    } else if n < id {
                        assert(after.nodes[n] == self.nodes[n]);
                        assert(self.nodes[n]->Dir_children[i] < self.nodes.len());
                        assert(self.nodes[n]->Dir_children[j] < self.nodes.len());
                        assert(self.distinct_names(self.nodes[n]->Dir_children));
                    }
                }
            }
            assert forall|n: int|
                0 <= n < after.nodes.len() && (#[trigger] after.nodes[n]) is File
                    implies file_valid(after.nodes[n]) by {
                if n < id {
                    assert(after.nodes[n] == self.nodes[n]);
                }
            }
            assert(after.nodes[0] is Dir);
        }
    }

    /// A file system that hangs together still does when the content or
    /// the times of one of its files were replaced by those of a valid
    /// file of the same name.
    pub proof fn lemma_with_file_valid(self, node: usize, file: NodeModel)
        requires
            self.valid(),
            self.has(node),
            self.nodes[node as int] is File,
            file is File,
            file_valid(file),
            file.name() == self.nodes[node as int].name(),
        ensures
            self.with_node(node, file).valid(),
    {
        let after = self.with_node(node, file);
        assert forall|n: int| 0 <= n < self.nodes.len() implies (#[trigger] after.nodes[n]).name()
            == self.nodes[n].name() by {}
        assert forall|n: int, k: int|
            0 <= n < after.nodes.len() && after.nodes[n] is Dir && 0 <= k
                < after.nodes[n]->Dir_children.len() implies (
        #[trigger] after.nodes[n]->Dir_children[k]) < after.nodes.len() by {
            assert(after.nodes[n] == self.nodes[n]);
            assert(self.nodes[n]->Dir_children[k] < self.nodes.len());
        }
        assert forall|n: int|
            0 <= n < after.nodes.len() && (#[trigger] after.nodes[n]) is Dir
                implies after.distinct_names(after.nodes[n]->Dir_children) by {
            let list = after.nodes[n]->Dir_children;
            assert(after.nodes[n] == self.nodes[n]);
            assert(self.distinct_names(list));
            assert forall|i: int, j: int| 0 <= i < j < list.len() implies after.nodes[
                #[trigger] list[i] as int].name()
                != after.nodes[#[trigger] list[j] as int].name() by {
                assert(self.nodes[n]->Dir_children[i] < self.nodes.len());
                assert(self.nodes[n]->Dir_children[j] < self.nodes.len());
            }
        }
        assert forall|n: int|
            0 <= n < after.nodes.len() && (#[trigger] after.nodes[n]) is File
                implies file_valid(after.nodes[n]) by {
            if n != node {
                assert(after.nodes[n] == self.nodes[n]);
            }
        }
    }

    /// A file system that hangs together still does after children were
    /// taken out of a directory.
    pub proof fn lemma_take_out_valid(self, node: usize, name: Seq<char>, what: Removal)
        requires
            self.valid(),
        ensures
            self.take_out(node, name, what).0.valid(),
    {
        let after = self.take_out(node, name, what).0;
        if after != self {
            let children = self.nodes[node as int]->Dir_children;
            let left = self.without(children, name, what);
            assert(self.nodes[node as int] is Dir);
            assert(self.distinct_names(children));
            self.lemma_without(children, name, what);
            assert forall|n: int| 0 <= n < self.nodes.len() implies (
            #[trigger] after.nodes[n]).name() == self.nodes[n].name() by {}
            assert forall|n: int, k: int|
                0 <= n < after.nodes.len() && after.nodes[n] is Dir && 0 <= k
                    < after.nodes[n]->Dir_children.len() implies (
            #[trigger] after.nodes[n]->Dir_children[k]) < after.nodes.len() by {
                if n == node {
                    let j = choose|j: int| 0 <= j < children.len() && children[j] == left[k];
                    assert(self.nodes[n]->Dir_children[j] < self.nodes.len());
                } else {
                    assert(after.nodes[n] == self.nodes[n]);
                    assert(self.nodes[n]->Dir_children[k] < self.nodes.len());
                }
            }
            assert forall|n: int|
                0 <= n < after.nodes.len() && (#[trigger] after.nodes[n]) is Dir
                    implies after.distinct_names(after.nodes[n]->Dir_children) by {
                let list = after.nodes[n]->Dir_children;
                if n != node {
                    assert(after.nodes[n] == self.nodes[n]);
                }
                assert(self.distinct_names(list));
                assert forall|i: int, j: int| 0 <= i < j < list.len() implies after.nodes[
                    #[trigger] list[i] as int].name()
                    != after.nodes[#[trigger] list[j] as int].name() by {
                    assert(after.nodes[n]->Dir_children[i] < after.nodes.len());
                    assert(after.nodes[n]->Dir_children[j] < after.nodes.len());
                }
            }
            assert forall|n: int|
                0 <= n < after.nodes.len() && (#[trigger] after.nodes[n]) is File
                    implies file_valid(after.nodes[n]) by {
                assert(after.nodes[n] == self.nodes[n]);
            }
        }
    }

    /// A file system that hangs together still does after a write.
    pub proof fn lemma_writeat_valid(self, node: usize, offset: usize, data: Seq<u8>)
        requires
            self.valid(),
        ensures
            self.writeat(node, offset, data).0.valid(),
    {
        let after = self.writeat(node, offset, data).0;
        if after != self {
            let file = self.nodes[node as int];
            assert(file is File);
            let end = offset + data.len();
            let grown = grow(file->File_storage, pages_for(end));
            assert(pages_for(end) * PAGE_SIZE >= end);
            assert(grown.len() % PAGE_SIZE as nat == 0);
            self.lemma_with_file_valid(node, after.nodes[node as int]);
        }
    }

    /// A file system that hangs together still does after a file was
    /// set to a length.
    pub proof fn lemma_truncate_valid(self, node: usize, size: usize)
        requires
            self.valid(),
        ensures
            self.truncate(node, size).0.valid(),
    {
        let after = self.truncate(node, size).0;
        if after != self {
            let file = self.nodes[node as int];
            assert(file is File);
            let room = pages_for(size as int) * PAGE_SIZE;
            assert(size <= room < size + PAGE_SIZE);
            assert(file->File_storage.len() % PAGE_SIZE as nat == 0);
            self.lemma_with_file_valid(node, after.nodes[node as int]);
        }
    }

    /// A file system that hangs together still does after the times of
    /// a file were set.
    pub proof fn lemma_utimes_valid(self, node: usize, times: Seq<TimeSpec>)
        requires
            self.valid(),
        ensures
            self.utimes(node, times).0.valid(),
    {
        let after = self.utimes(node, times).0;
        if after != self {
            assert(self.nodes[node as int] is File);
            self.lemma_with_file_valid(node, after.nodes[node as int]);
        }
    }

    /// A write that starts beyond the end of a file leaves zeros between
    /// the old end and the start of the write, and what the file held as
    /// it was.
    pub proof fn lemma_write_leaves_zeros_in_the_gap(self, node: usize, offset: usize,
        data: Seq<u8>)
        requires
            self.valid(),
            self.not_a_file(node) is None,
            offset + data.len() + PAGE_SIZE - 1 <= usize::MAX,
            self.nodes[node as int]->File_len <= offset,
        ensures
            ({
                let after = self.writeat(node, offset, data).0;
                let len = self.nodes[node as int]->File_len;
                &&& after.readat(node, len, (offset - len) as usize) == Ok::<Seq<u8>, Errno>(
                    zeros((offset - len) as nat),
                )
                &&& after.readat(node, 0, len) == self.readat(node, 0, len)
            }),
    {
        let after = self.writeat(node, offset, data).0;
        let file = self.nodes[node as int];
        assert(file is File);
        let len = file->File_len;
        let end = offset + data.len();
        let grown = grow(file->File_storage, pages_for(end));
        let written = overlay(grown, offset as int, data);
        assert(pages_for(end) * PAGE_SIZE >= end);
        assert(grown.len() >= end);
        assert(written.subrange(len as int, offset as int) =~= zeros((offset - len) as nat));
        assert(written.subrange(0, len as int) =~= file->File_storage.subrange(0, len as int));
        assert(zeros(0) =~= Seq::<u8>::empty());
        assert(file->File_storage.subrange(0, 0) =~= Seq::<u8>::empty());
        assert(written.subrange(0, 0) =~= Seq::<u8>::empty());
    }

    /// A file that is set to a greater length reads zeros between the
    /// old end and the new one, and what it held as it was.
    pub proof fn lemma_truncate_grows_with_zeros(self, node: usize, size: usize)
        requires
            self.valid(),
            self.not_a_file(node) is None,
            size + PAGE_SIZE - 1 <= usize::MAX,
            self.nodes[node as int]->File_len <= size,
        ensures
            ({
                let (after, r) = self.truncate(node, size);
                let len = self.nodes[node as int]->File_len;
                &&& r is Ok
                &&& after.nodes[node as int]->File_len == size
                &&& after.readat(node, len, (size - len) as usize) == Ok::<Seq<u8>, Errno>(
                    zeros((size - len) as nat),
                )
                &&& after.readat(node, 0, len) == self.readat(node, 0, len)
            }),
    {
        let after = self.truncate(node, size).0;
        let file = self.nodes[node as int];
        assert(file is File);
        let len = file->File_len;
        let storage = file->File_storage;
        let cut = after.nodes[node as int]->File_storage;
        let room = pages_for(size as int) * PAGE_SIZE;
        assert(size <= room < size + PAGE_SIZE);
        assert(storage.len() % PAGE_SIZE as nat == 0);
        assert(cut.subrange(len as int, size as int) =~= zeros((size - len) as nat));
        assert(cut.subrange(0, len as int) =~= storage.subrange(0, len as int));
        assert(zeros(0) =~= Seq::<u8>::empty());
        assert(storage.subrange(0, 0) =~= Seq::<u8>::empty());
        assert(cut.subrange(0, 0) =~= Seq::<u8>::empty());
    }

    /// No two entries of the listing of a directory have the same name.
    pub proof fn lemma_listing_names_distinct(self, node: usize)
        requires
            self.valid(),
            self.read_dir(node) is Ok,
        ensures
            ({
                let listing = self.read_dir(node)->Ok_0;
                forall|i: int, j: int|
                    0 <= i < j < listing.len() ==> (#[trigger] listing[i]).filename != (
                    #[trigger] listing[j]).filename
            }),
    {
        let listing = self.read_dir(node)->Ok_0;
        let children = self.nodes[node as int]->Dir_children;
        assert(self.nodes[node as int] is Dir);
        assert(self.distinct_names(children));
        assert forall|i: int, j: int| 0 <= i < j < listing.len() implies (
        #[trigger] listing[i]).filename != (#[trigger] listing[j]).filename by {
            assert(self.nodes[children[i] as int].name() != self.nodes[children[j] as int].name());
            assert(listing[i] == self.nodes[children[i] as int].entry());
            assert(listing[j] == self.nodes[children[j] as int].entry());
        }
    }
}

} // verus!
