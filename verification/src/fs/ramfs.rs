//! The in-memory file system: directories, files whose content lies in
//! pages that are allocated as the file grows, and links.
//!
//! The file system keeps its nodes in a table; a node's number is its
//! place there. A directory lists the numbers of its children. A node
//! that is removed from its directory stays in the table, so that a
//! number that was handed out keeps its meaning.

use vstd::prelude::*;

use crate::config::PAGE_SIZE;
use crate::fs::base::{
    entries_view, DirEntry, DirEntryModel, Errno, FSPage, FSTrait, FileSystem, FileType,
    FsResult, INodeInterface, Metadata, MetadataModel, OpenFlags, PollEvent, Stat, StatFS,
    TimeSpec,
};
use crate::fs::ramfs::file::{fresh_pages, give_back, page_addrs, single_pages};
pub use crate::fs::ramfs::file::pages_storage;
pub use crate::fs::ramfs::model::{
    can_be_created, file_valid, grow, pages_for, tail_is_zero, NodeModel, RamFsModel, Removal,
};
use crate::utils::{overlay, same_str};

pub mod file;
pub mod model;

verus! {

/// A directory: its name and its children.
pub struct RamDirInner {
    name: String,
    children: Vec<usize>,
}

/// A file: its name, its length, its pages, and its times of creation,
/// access and change.
pub struct RamFileInner {
    name: String,
    len: usize,
    pages: Vec<FSPage>,
    times: [TimeSpec; 3],
}

/// A link: its name and the path it stands for.
pub struct RamLinkInner {
    name: String,
    link_file: String,
}

/// A node of the in-memory file system.
pub enum FileContainer {
    File(RamFileInner),
    Dir(RamDirInner),
    Link(RamLinkInner),
}

impl View for FileContainer {
    type V = NodeModel;

    closed spec fn view(&self) -> NodeModel {
        match self {
            FileContainer::File(file) => NodeModel::File {
                name: file.name@,
                len: file.len,
                storage: pages_storage(file.pages@),
                times: file.times@,
            },
            FileContainer::Dir(dir) => NodeModel::Dir {
                name: dir.name@,
                children: dir.children@,
            },
            FileContainer::Link(link) => NodeModel::Link {
                name: link.name@,
                target: link.link_file@,
            },
        }
    }
}

impl FileContainer {
    /// The invariant of a node in a table of `count` nodes: a directory
    /// lists nodes of the table; a file's pages are whole, cover its
    /// length, and can be counted in bytes.
    pub closed spec fn wf(&self, count: nat) -> bool {
        match self {
            FileContainer::File(file) => file.wf(),
            FileContainer::Dir(dir) => forall|k: int|
                0 <= k < dir.children@.len() ==> #[trigger] dir.children@[k] < count,
            FileContainer::Link(_) => true,
        }
    }

    /// The name of the node.
    fn filename(&self) -> (name: &str)
        ensures
            name@ == self@.name(),
    {
        match self {
            FileContainer::File(file) => file.name.as_str(),
            FileContainer::Dir(dir) => dir.name.as_str(),
            FileContainer::Link(link) => link.name.as_str(),
        }
    }
}

/// The models of `nodes`.
pub open spec fn nodes_view(nodes: Seq<FileContainer>) -> Seq<NodeModel> {
    Seq::new(nodes.len(), |i: int| nodes[i]@)
}

/// The in-memory file system, with the source of its pages.
pub struct RamFs<F: FSTrait> {
    nodes: Vec<FileContainer>,
    pager: F,
}

impl<F: FSTrait> RamFs<F> {
    /// The invariant of the file system: node 0 is the root directory,
    /// every node is well-formed, the file system hangs together as
    /// [`RamFsModel::valid`] says, and the source of pages is
    /// well-formed.
    pub closed spec fn inv(&self) -> bool {
        &&& self.pager.wf()
        &&& self.nodes@.len() >= 1
        &&& self.nodes@[0] is Dir
        &&& forall|i: int|
            0 <= i < self.nodes@.len() ==> (#[trigger] self.nodes@[i]).wf(self.nodes@.len())
        &&& self@.valid()
    }

    /// The model of the file system.
    pub closed spec fn view(&self) -> RamFsModel {
        RamFsModel { nodes: nodes_view(self.nodes@) }
    }

    /// The addresses of the pages of the file `node`, in their order;
    /// none where `node` is no file.
    pub closed spec fn page_addrs(&self, node: usize) -> Seq<usize> {
        if node < self.nodes@.len() {
            match self.nodes@[node as int] {
                FileContainer::File(file) => file.addrs(),
                _ => Seq::empty(),
            }
        } else {
            Seq::empty()
        }
    }

    /// Whether the source of pages, as it is, serves a request for a
    /// single page.
    pub closed spec fn serves_page(&self) -> bool {
        self.pager.serves_page()
    }

    /// Whether the file `node` lacks pages to hold `bytes` bytes, and
    /// whether it lacks just one.
    pub open spec fn lacks_pages(&self, node: usize, bytes: int) -> (bool, bool) {
        (
            pages_for(bytes) > self.page_addrs(node).len(),
            pages_for(bytes) == self.page_addrs(node).len() + 1,
        )
    }

    /// Whether the source of pages counts the page at the address `addr`
    /// as handed out.
    pub closed spec fn lent(&self, addr: usize) -> bool {
        self.pager.lent(addr)
    }

    /// A file system that holds an empty root directory and takes its
    /// pages from `pager`.
    pub fn new(pager: F) -> (fs: Self)
        requires
            pager.wf(),
        ensures
            fs.inv(),
            fs@ == (RamFsModel { nodes: seq![NodeModel::empty_dir(Seq::empty())] }),
    {
        let mut nodes: Vec<FileContainer> = Vec::new();
        nodes.push(FileContainer::Dir(RamDirInner { name: String::new(), children: Vec::new() }));
        let fs = RamFs { nodes, pager };
        assert(fs@.nodes =~= seq![NodeModel::empty_dir(Seq::empty())]);
        fs
    }

    /// The first of `children`, from place `from` on, that has the name
    /// `name`.
    fn find_child(&self, children: &Vec<usize>, name: &str) -> (found: Option<usize>)
        requires
            forall|k: int| 0 <= k < children@.len() ==> #[trigger] children@[k] < self.nodes@.len(),
        ensures
            found == self@.find(children@, name@),
    {
        let mut i: usize = 0;
        while i < children.len()
            invariant
                i <= children@.len(),
                forall|k: int|
                    0 <= k < children@.len() ==> #[trigger] children@[k] < self.nodes@.len(),
                self@.find(children@, name@) == self@.find_from(children@, name@, i as int),
            decreases children@.len() - i,
        {
            let child = children[i];
            if same_str(self.nodes[child].filename(), name) {
                return Some(child);
            }
            i = i + 1;
        }
        None
    }

    /// Creates `child` in the directory `dir`, unless its name is taken
    /// there, and returns its number.
    fn create(&mut self, dir: usize, child: FileContainer) -> (r: FsResult<usize>)
        requires
            old(self).inv(),
            child.wf(0),
            can_be_created(child@),
        ensures
            final(self).inv(),
            (final(self)@, r) == old(self)@.create(dir, child@),
    {
        if dir >= self.nodes.len() {
            return Err(Errno::EBADF);
        }
        let taken = match &self.nodes[dir] {
            FileContainer::Dir(inner) => self.find_child(&inner.children, child.filename()),
            _ => {
                return Err(Errno::ENOTDIR);
            },
        };
        if taken.is_some() {
            return Err(Errno::EEXIST);
        }
        let id = self.nodes.len();
        match &mut self.nodes[dir] {
            FileContainer::Dir(inner) => {
                inner.children.push(id);
            },
            _ => {},
        }
        self.nodes.push(child);
        proof {
            assert(self@.nodes =~= old(self)@.with_child(dir, child@).nodes);
            old(self)@.lemma_find(old(self)@.nodes[dir as int]->Dir_children, child@.name(), 0);
            old(self)@.lemma_create_valid(dir, child@);
        }
        Ok(id)
    }
}

impl<F: FSTrait> RamFs<F> {
    /// Whether a removal of the kind `what` under the name `name` takes
    /// the node `child` away.
    fn removes(&self, child: usize, name: &str, what: Removal) -> (r: bool)
        requires
            child < self.nodes@.len(),
        ensures
            r == self@.removes(child, name@, what),
    {
        match &self.nodes[child] {
            FileContainer::Dir(dir) => what == Removal::Directories && same_str(
                dir.name.as_str(),
                name,
            ),
            FileContainer::File(file) => what == Removal::FilesAndLinks && same_str(
                file.name.as_str(),
                name,
            ),
            FileContainer::Link(link) => what == Removal::FilesAndLinks && same_str(
                link.name.as_str(),
                name,
            ),
        }
    }

    /// Takes the children of the kind `what` and the name `name` out of
    /// the directory `node`.
    fn take_out(&mut self, node: usize, name: &str, what: Removal) -> (r: FsResult<()>)
        requires
            old(self).inv(),
        ensures
            final(self).inv(),
            (final(self)@, r) == old(self)@.take_out(node, name@, what),
    {
        if node >= self.nodes.len() {
            return Err(Errno::EBADF);
        }
        let mut left: Vec<usize> = Vec::new();
        let count = match &self.nodes[node] {
            FileContainer::Dir(dir) => {
                let children = &dir.children;
                let mut i: usize = 0;
                proof {
                    assert(children@.take(0) =~= Seq::<usize>::empty());
                    assert(self.nodes@[node as int].wf(self.nodes@.len()));
                }
                while i < children.len()
                    invariant
                        i <= children@.len(),
                        forall|k: int|
                            0 <= k < children@.len() ==> #[trigger] children@[k]
                                < self.nodes@.len(),
                        left@ == self@.without(children@.take(i as int), name@, what),
                        forall|k: int| 0 <= k < left@.len() ==>
                            #[trigger] left@[k] < self.nodes@.len(),
                    decreases children@.len() - i,
                {
                    let child = children[i];
                    proof {
                        assert(children@.take(i + 1).drop_last() =~= children@.take(i as int));
                        assert(children@.take(i + 1).last() == child);
                    }
                    if !self.removes(child, name, what) {
                        left.push(child);
                    }
                    i = i + 1;
                }
                proof {
                    assert(children@.take(i as int) =~= children@);
                }
                children.len()
            },
            _ => {
                return Err(Errno::ENOTDIR);
            },
        };
        if left.len() >= count {
            return Err(Errno::ENOENT);
        }
        match &mut self.nodes[node] {
            FileContainer::Dir(dir) => {
                dir.children = left;
            },
            _ => {},
        }
        proof {
            let want = old(self)@.take_out(node, name@, what).0;
            assert(self@.nodes =~= want.nodes);
            old(self)@.lemma_take_out_valid(node, name@, what);
        }
        Ok(())
    }

    /// The entry that a directory listing shows for the node `child`.
    fn entry_of(&self, child: usize) -> (entry: DirEntry)
        requires
            child < self.nodes@.len(),
        ensures
            entry@ == self@.nodes[child as int].entry(),
    {
        match &self.nodes[child] {
            FileContainer::File(file) => DirEntry {
                filename: file.name.clone(),
                len: file.len,
                file_type: FileType::File,
            },
            FileContainer::Dir(dir) => DirEntry {
                filename: dir.name.clone(),
                len: 0,
                file_type: FileType::Directory,
            },
            FileContainer::Link(link) => DirEntry {
                filename: link.name.clone(),
                len: 0,
                file_type: FileType::Link,
            },
        }
    }

    /// The error with which an operation on the content of the node
    /// `node` is refused, where `node` is no file.
    fn not_a_file(&self, node: usize) -> (e: Option<Errno>)
        ensures
            e == self@.not_a_file(node),
            e is None ==> node < self.nodes@.len() && self.nodes@[node as int] is File,
    {
        if node >= self.nodes.len() {
            return Some(Errno::EBADF);
        }
        match &self.nodes[node] {
            FileContainer::File(_) => None,
            FileContainer::Dir(_) => Some(Errno::EISDIR),
            FileContainer::Link(_) => Some(Errno::EBADF),
        }
    }

    /// The number of pages that the file `node` holds.
    fn page_count(&self, node: usize) -> (count: usize)
        requires
            self.inv(),
            node < self.nodes@.len(),
            self.nodes@[node as int] is File,
        ensures
            count * PAGE_SIZE == self@.nodes[node as int]->File_storage.len(),
            count * PAGE_SIZE <= usize::MAX,
    {
        proof {
            assert(self.nodes@[node as int].wf(self.nodes@.len()));
        }
        match &self.nodes[node] {
            FileContainer::File(file) => file.pages.len(),
            _ => 0,
        }
    }
}

impl<F: FSTrait> INodeInterface for RamFs<F> {
    type Model = RamFsModel;

    open spec fn model(&self) -> RamFsModel {
        self@
    }

    open spec fn wf(&self) -> bool {
        self.inv()
    }

    /// Not implemented.
    open spec fn metadata_model(m: RamFsModel, node: usize) -> FsResult<MetadataModel> {
        Err(Errno::ENOSYS)
    }

    fn metadata(&self, node: usize) -> (r: FsResult<Metadata<'_>>) {
        Err(Errno::ENOSYS)
    }

    open spec fn readat_model(m: RamFsModel, node: usize, offset: usize, count: usize) -> FsResult<
        Seq<u8>,
    > {
        m.readat(node, offset, count)
    }

    fn readat(&self, node: usize, offset: usize, buffer: &mut [u8]) -> (r: FsResult<usize>) {
        match self.not_a_file(node) {
            Some(e) => {
                return Err(e);
            },
            None => {},
        }
        proof {
            assert(self.nodes@[node as int].wf(self.nodes@.len()));
        }
        match &self.nodes[node] {
            FileContainer::File(file) => {
                if offset >= file.len {
                    proof {
                        assert(buffer@ =~= overlay(old(buffer)@, 0, Seq::<u8>::empty()));
                    }
                    Ok(0)
                } else {
                    let room = buffer.len();
                    let read_len = if room <= file.len - offset {
                        room
                    } else {
                        file.len - offset
                    };
                    file.read_into(offset, buffer, read_len);
                    Ok(read_len)
                }
            },
            _ => Err(Errno::EBADF),
        }
    }

    open spec fn writeat_model(m: RamFsModel, node: usize, offset: usize, data: Seq<u8>) -> (
        RamFsModel,
        FsResult<usize>,
    ) {
        m.writeat(node, offset, data)
    }

    /// A write that needs no new page does what its model says. One
    /// that needs pages finds no space when the source of pages serves
    /// none, and does not fail for want of space when it needs one page
    /// and the source serves one.
    fn writeat(&mut self, node: usize, offset: usize, buffer: &[u8]) -> (r: FsResult<usize>)
        ensures
            old(self).model().not_a_file(node) is Some || pages_for(offset + buffer@.len())
                * PAGE_SIZE <= old(self).model().nodes[node as int]->File_storage.len() ==> (
            final(self).model(),
            r,
            ) == old(self).model().writeat(node, offset, buffer@),
            old(self).model().not_a_file(node) is None && offset + buffer@.len() + PAGE_SIZE - 1
                <= usize::MAX ==> {
                let lacks = old(self).lacks_pages(node, offset + buffer@.len());
                &&& lacks.0 && !old(self).serves_page() ==> r == Err::<usize, Errno>(
                    Errno::ENOSPC,
                )
                &&& lacks.1 && old(self).serves_page() ==> r is Ok
                &&& r == Err::<usize, Errno>(Errno::ENOSPC) ==> lacks.0
            },
    {
        match self.not_a_file(node) {
            Some(e) => {
                return Err(e);
            },
            None => {},
        }
        let end = match offset.checked_add(buffer.len()) {
            Some(end) => end,
            None => {
                return Err(Errno::EINVAL);
            },
        };
        let needed = match end.checked_add(PAGE_SIZE - 1) {
            Some(rounded) => rounded / PAGE_SIZE,
            None => {
                return Err(Errno::EINVAL);
            },
        };
        let have = self.page_count(node);
        let fresh = if needed > have {
            match fresh_pages(&mut self.pager, needed - have) {
                Some(pages) => pages,
                None => {
                    return Err(Errno::ENOSPC);
                },
            }
        } else {
            Vec::new()
        };
        proof {
            assert(self.nodes@[node as int].wf(self.nodes@.len()));
            assert((have + fresh@.len()) * PAGE_SIZE <= usize::MAX) by (nonlinear_arith)
                requires
                    have * PAGE_SIZE <= usize::MAX,
                    needed * PAGE_SIZE <= usize::MAX,
                    fresh@.len() == (if needed > have {
                        needed - have
                    } else {
                        0
                    }),
            ;
        }
        match &mut self.nodes[node] {
            FileContainer::File(file) => {
                file.extend(fresh);
                proof {
                    assert(file.storage() =~= grow(old(self)@.nodes[node as int]->File_storage,
                        needed as int)) by {
                        assert(fresh@.len() * PAGE_SIZE ==
                            needed * PAGE_SIZE - have * PAGE_SIZE || fresh@.len() == 0)
                                by (nonlinear_arith)
                            requires
                                fresh@.len() == (if needed > have {
                                    needed - have
                                } else {
                                    0
                                }),
                        ;
                        if needed <= have {
                            assert(needed * PAGE_SIZE <= have * PAGE_SIZE) by (nonlinear_arith)
                                requires
                                    needed <= have,
                            ;
                        }
                    }
                }
                file.write_from(offset, buffer);
                if end > file.len {
                    file.len = end;
                }
            },
            _ => {},
        }
        proof {
            let want = old(self)@.writeat(node, offset, buffer@).0;
            assert(self@.nodes =~= want.nodes);
        }
        Ok(buffer.len())
    }

    open spec fn mkdir_model(m: RamFsModel, node: usize, name: Seq<char>) -> (
        RamFsModel,
        FsResult<usize>,
    ) {
        m.create(node, NodeModel::empty_dir(name))
    }

    fn mkdir(&mut self, node: usize, name: &str) -> (r: FsResult<usize>) {
        self.create(
            node,
            FileContainer::Dir(RamDirInner { name: name.to_owned(), children: Vec::new() }),
        )
    }

    open spec fn rmdir_model(m: RamFsModel, node: usize, name: Seq<char>) -> (
        RamFsModel,
        FsResult<()>,
    ) {
        m.take_out(node, name, Removal::Directories)
    }

    fn rmdir(&mut self, node: usize, name: &str) -> (r: FsResult<()>) {
        self.take_out(node, name, Removal::Directories)
    }

    open spec fn remove_model(m: RamFsModel, node: usize, name: Seq<char>) -> (
        RamFsModel,
        FsResult<()>,
    ) {
        m.take_out(node, name, Removal::FilesAndLinks)
    }

    fn remove(&mut self, node: usize, name: &str) -> (r: FsResult<()>) {
        self.take_out(node, name, Removal::FilesAndLinks)
    }

    open spec fn read_dir_model(m: RamFsModel, node: usize) -> FsResult<Seq<DirEntryModel>> {
        m.read_dir(node)
    }

    fn read_dir(&self, node: usize) -> (r: FsResult<Vec<DirEntry>>) {
        if node >= self.nodes.len() {
            return Err(Errno::EBADF);
        }
        match &self.nodes[node] {
            FileContainer::Dir(dir) => {
                let children = &dir.children;
                let mut entries: Vec<DirEntry> = Vec::new();
                let mut i: usize = 0;
                proof {
                    assert(self.nodes@[node as int].wf(self.nodes@.len()));
                }
                while i < children.len()
                    invariant
                        i <= children@.len(),
                        forall|k: int|
                            0 <= k < children@.len() ==> #[trigger] children@[k]
                                < self.nodes@.len(),
                        entries@.len() == i,
                        forall|k: int|
                            0 <= k < i ==> (#[trigger] entries@[k])@
                                == self@.nodes[children@[k] as int].entry(),
                    decreases children@.len() - i,
                {
                    entries.push(self.entry_of(children[i]));
                    i = i + 1;
                }
                proof {
                    assert(entries_view(entries@) =~= self@.read_dir(node)->Ok_0);
                }
                Ok(entries)
            },
            _ => Err(Errno::ENOTDIR),
        }
    }

    open spec fn open_model(m: RamFsModel, node: usize, name: Seq<char>, flags: OpenFlags) -> (
        RamFsModel,
        FsResult<usize>,
    ) {
        m.open(node, name, flags)
    }

    fn open(&mut self, node: usize, name: &str, flags: OpenFlags) -> (r: FsResult<usize>) {
        if flags.contains(OpenFlags::CREAT) {
            return self.create(node, FileContainer::File(RamFileInner::empty(name)));
        }
        if node >= self.nodes.len() {
            return Err(Errno::EBADF);
        }
        proof {
            assert(self.nodes@[node as int].wf(self.nodes@.len()));
        }
        match &self.nodes[node] {
            FileContainer::Dir(dir) => match self.find_child(&dir.children, name) {
                Some(child) => Ok(child),
                None => Err(Errno::ENOENT),
            },
            _ => Err(Errno::ENOTDIR),
        }
    }

    /// Not supported.
    open spec fn ioctl_model(m: RamFsModel, node: usize, command: usize, arg: usize) -> (
        RamFsModel,
        FsResult<usize>,
    ) {
        (m, Err(Errno::EACCES))
    }

    fn ioctl(&mut self, node: usize, command: usize, arg: usize) -> (r: FsResult<usize>) {
        Err(Errno::EACCES)
    }

    open spec fn truncate_model(m: RamFsModel, node: usize, size: usize) -> (
        RamFsModel,
        FsResult<()>,
    ) {
        m.truncate(node, size)
    }

    /// A truncation that needs no new page does what its model says. One
    /// that needs pages finds no space when the source of pages serves
    /// none, and does not fail for want of space when it needs one page
    /// and the source serves one. The
    /// pages that the file has beyond those that `size` needs go back to
    /// the source of pages, which has them handed out no more; the pages
    /// that it lacks come from there, and are handed out.
    fn truncate(&mut self, node: usize, size: usize) -> (r: FsResult<()>)
        ensures
            old(self).model().not_a_file(node) is Some || pages_for(size as int) * PAGE_SIZE
                <= old(self).model().nodes[node as int]->File_storage.len() ==> (
            final(self).model(),
            r,
            ) == old(self).model().truncate(node, size),
            old(self).model().not_a_file(node) is None && size + PAGE_SIZE - 1 <= usize::MAX ==> {
                let lacks = old(self).lacks_pages(node, size as int);
                &&& lacks.0 && !old(self).serves_page() ==> r == Err::<(), Errno>(Errno::ENOSPC)
                &&& lacks.1 && old(self).serves_page() ==> r is Ok
                &&& r == Err::<(), Errno>(Errno::ENOSPC) ==> lacks.0
            },
            r is Ok ==> final(self).page_addrs(node).len() == pages_for(size as int),
            r is Ok && pages_for(size as int) <= old(self).page_addrs(node).len() ==> {
                &&& final(self).page_addrs(node) == old(self).page_addrs(node).take(
                    pages_for(size as int),
                )
                &&& forall|k: int|
                    pages_for(size as int) <= k < old(self).page_addrs(node).len()
                        ==> !final(self).lent(#[trigger] old(self).page_addrs(node)[k])
                &&& forall|addr: usize| #[trigger] final(self).lent(addr) ==> old(self).lent(addr)
            },
            r is Ok && pages_for(size as int) > old(self).page_addrs(node).len() ==> {
                &&& final(self).page_addrs(node).take(old(self).page_addrs(node).len() as int)
                    == old(self).page_addrs(node)
                &&& forall|k: int|
                    old(self).page_addrs(node).len() <= k < pages_for(size as int) ==> {
                        &&& final(self).lent(#[trigger] final(self).page_addrs(node)[k])
                        &&& !old(self).lent(final(self).page_addrs(node)[k])
                    }
                &&& forall|addr: usize| old(self).lent(addr) ==> #[trigger] final(self).lent(addr)
            },
    {
        match self.not_a_file(node) {
            Some(e) => {
                return Err(e);
            },
            None => {},
        }
        let target = match size.checked_add(PAGE_SIZE - 1) {
            Some(rounded) => rounded / PAGE_SIZE,
            None => {
                return Err(Errno::EINVAL);
            },
        };
        let have = self.page_count(node);
        proof {
            assert(self.nodes@[node as int].wf(self.nodes@.len()));
        }
        if target <= have {
            let dropped = match &mut self.nodes[node] {
                FileContainer::File(file) => {
                    let dropped = file.cut(target);
                    if size % PAGE_SIZE != 0 {
                        file.zero_tail(size);
                    }
                    file.len = size;
                    dropped
                },
                _ => Vec::new(),
            };
            let ghost gone = dropped@;
            give_back(&mut self.pager, dropped);
            proof {
                let held = old(self).page_addrs(node);
                assert(self.page_addrs(node) == held.take(target as int));
                assert(single_pages(gone));
                assert(page_addrs(gone) == held.skip(target as int));
                assert(page_addrs(gone).len() == gone.len());
                assert forall|k: int| target <= k < held.len() implies !self.lent(
                    #[trigger] held[k],
                ) by {
                    assert(page_addrs(gone)[k - target] == held.skip(target as int)[k - target]);
                    assert(gone[k - target].page_count_spec() == 1);
                }
                let want = old(self)@.truncate(node, size).0;
                let before = old(self)@.nodes[node as int]->File_storage;
                assert(target * PAGE_SIZE <= have * PAGE_SIZE) by (nonlinear_arith)
                    requires
                        target <= have,
                ;
                assert(self@.nodes[node as int]->File_storage =~=
                    want.nodes[node as int]->File_storage);
                assert(self@.nodes =~= want.nodes);
            }
        } else {
            let fresh = match fresh_pages(&mut self.pager, target - have) {
                Some(pages) => pages,
                None => {
                    return Err(Errno::ENOSPC);
                },
            };
            proof {
                assert(target * PAGE_SIZE > have * PAGE_SIZE) by (nonlinear_arith)
                    requires
                        target > have,
                ;
                assert((have + fresh@.len()) * PAGE_SIZE == target * PAGE_SIZE) by (nonlinear_arith)
                    requires
                        fresh@.len() == target - have,
                ;
                assert(fresh@.len() * PAGE_SIZE == target * PAGE_SIZE - have * PAGE_SIZE)
                    by (nonlinear_arith)
                    requires
                        fresh@.len() == target - have,
                ;
            }
            match &mut self.nodes[node] {
                FileContainer::File(file) => {
                    file.extend(fresh);
                    file.len = size;
                },
                _ => {},
            }
            proof {
                let want = old(self)@.truncate(node, size).0;
                assert(self@.nodes =~= want.nodes);
            }
        }
        Ok(())
    }

    /// Not supported.
    open spec fn flush_model(m: RamFsModel, node: usize) -> (RamFsModel, FsResult<()>) {
        (m, Err(Errno::EACCES))
    }

    fn flush(&mut self, node: usize) -> (r: FsResult<()>) {
        Err(Errno::EACCES)
    }

    /// Not supported.
    open spec fn resolve_link_model(m: RamFsModel, node: usize) -> FsResult<Seq<char>> {
        Err(Errno::EACCES)
    }

    fn resolve_link(&self, node: usize) -> (r: FsResult<String>) {
        Err(Errno::EACCES)
    }

    open spec fn link_model(m: RamFsModel, node: usize, name: Seq<char>, src: Seq<char>) -> (
        RamFsModel,
        FsResult<()>,
    ) {
        m.link(node, name, src)
    }

    fn link(&mut self, node: usize, name: &str, src: &str) -> (r: FsResult<()>) {
        match self.create(
            node,
            FileContainer::Link(RamLinkInner { name: name.to_owned(), link_file: src.to_owned() }),
        ) {
            Ok(_) => Ok(()),
            Err(e) => Err(e),
        }
    }

    open spec fn sym_link_model(m: RamFsModel, node: usize, name: Seq<char>, src: Seq<char>) -> (
        RamFsModel,
        FsResult<()>,
    ) {
        m.link(node, name, src)
    }

    fn sym_link(&mut self, node: usize, name: &str, src: &str) -> (r: FsResult<()>) {
        self.link(node, name, src)
    }

    open spec fn unlink_model(m: RamFsModel, node: usize, name: Seq<char>) -> (
        RamFsModel,
        FsResult<()>,
    ) {
        m.take_out(node, name, Removal::FilesAndLinks)
    }

    fn unlink(&mut self, node: usize, name: &str) -> (r: FsResult<()>) {
        self.take_out(node, name, Removal::FilesAndLinks)
    }

    /// Not implemented.
    open spec fn stat_model(m: RamFsModel, node: usize, stat: Stat) -> (Stat, FsResult<()>) {
        (stat, Err(Errno::ENOSYS))
    }

    fn stat(&self, node: usize, stat: &mut Stat) -> (r: FsResult<()>) {
        Err(Errno::ENOSYS)
    }

    /// Not supported.
    open spec fn statfs_model(m: RamFsModel, node: usize, statfs: StatFS) -> (
        StatFS,
        FsResult<()>,
    ) {
        (statfs, Err(Errno::EACCES))
    }

    fn statfs(&self, node: usize, statfs: &mut StatFS) -> (r: FsResult<()>) {
        Err(Errno::EACCES)
    }

    open spec fn utimes_model(m: RamFsModel, node: usize, times: Seq<TimeSpec>) -> (
        RamFsModel,
        FsResult<()>,
    ) {
        m.utimes(node, times)
    }

    fn utimes(&mut self, node: usize, times: &[TimeSpec]) -> (r: FsResult<()>) {
        match self.not_a_file(node) {
            Some(e) => {
                return Err(e);
            },
            None => {},
        }
        if times.len() < 2 {
            return Err(Errno::EINVAL);
        }
        proof {
            assert(self.nodes@[node as int].wf(self.nodes@.len()));
        }
        match &mut self.nodes[node] {
            FileContainer::File(file) => {
                if times[0].nsec != TimeSpec::UTIME_OMIT {
                    file.times[1] = times[0];
                }
                if times[1].nsec != TimeSpec::UTIME_OMIT {
                    file.times[2] = times[1];
                }
            },
            _ => {},
        }
        proof {
            let want = old(self)@.utimes(node, times@).0;
            assert(self@.nodes[node as int]->File_times =~= want.nodes[node as int]->File_times);
            assert(self@.nodes =~= want.nodes);
        }
        Ok(())
    }

    /// Not supported.
    open spec fn poll_model(m: RamFsModel, node: usize, events: PollEvent) -> FsResult<PollEvent> {
        Err(Errno::EACCES)
    }

    fn poll(&self, node: usize, events: PollEvent) -> (r: FsResult<PollEvent>) {
        Err(Errno::EACCES)
    }
}

impl<F: FSTrait> FileSystem for RamFs<F> {
    open spec fn root_model(m: RamFsModel) -> usize {
        0
    }

    fn root_dir(&self) -> (root: usize) {
        0
    }

    /// The file system is of the kind `ramfs`.
    fn name(&self) -> (name: &str)
        ensures
            name@ == "ramfs"@,
    {
        "ramfs"
    }
}

impl<F: FSTrait> RamFs<F> {
    /// A well-formed file system hangs together.
    pub proof fn lemma_inv_valid(&self)
        requires
            self.inv(),
        ensures
            self@.valid(),
    {
    }
}

} // verus!
