//! The file system tree: file systems mounted at paths, and a tree of
//! directory entries through which paths are resolved.
//!
//! A directory entry stands for a node of a mounted file system. It
//! remembers, for each name that was looked up in it, the entries that
//! the name stands for: the one that the file system answered with, and
//! on top of it the root of each file system that was mounted over the
//! name. The entry on top is the one that a path finds. What was
//! remembered is never forgotten.

use vstd::prelude::*;

use crate::fs::base::{Errno, FileSystem, FsResult, INodeInterface, OpenFlags};
use crate::fs::path::{components, lemma_components_nonempty, parts_view, split_path,
    starts_at_root};
pub use crate::fs::tree::model::{
    directory_flags, lookup, lookup_from, mount, names_root, resolve, step, walk, CacheModel,
    DentryModel, TreeModel,
};
use crate::utils::same_str;

pub mod file;
pub mod model;

verus! {

/// What a directory entry remembers of one name: the entries that the
/// name stands for, the one on top last.
pub struct CacheEntry {
    name: String,
    stack: Vec<usize>,
}

impl View for CacheEntry {
    type V = CacheModel;

    closed spec fn view(&self) -> CacheModel {
        CacheModel { name: self.name@, stack: self.stack@ }
    }
}

/// Dentry Node: a directory entry.
pub struct Dentry {
    mount: usize,
    node: usize,
    children: Vec<CacheEntry>,
    parent: Option<usize>,
}

impl View for Dentry {
    type V = DentryModel;

    closed spec fn view(&self) -> DentryModel {
        DentryModel {
            mount: self.mount,
            node: self.node,
            children: Seq::new(self.children@.len(), |i: int| self.children@[i]@),
            parent: self.parent,
        }
    }
}

/// A mounted file system and the path it was mounted at.
pub struct MountPoint<FS: FileSystem> {
    path: String,
    fs: FS,
}

/// File System Tree, includes the mounted file systems and the tree of
/// directory entries.
pub struct FileTree<FS: FileSystem> {
    mounts: Vec<MountPoint<FS>>,
    dentries: Vec<Dentry>,
    roots: Vec<usize>,
}

impl<FS: FileSystem> View for FileTree<FS> {
    type V = TreeModel<FS::Model>;

    closed spec fn view(&self) -> TreeModel<FS::Model> {
        TreeModel {
            mounts: Seq::new(self.mounts@.len(), |i: int| self.mounts@[i].fs.model()),
            paths: Seq::new(self.mounts@.len(), |i: int| self.mounts@[i].path@),
            dentries: Seq::new(self.dentries@.len(), |i: int| self.dentries@[i]@),
            roots: self.roots@,
        }
    }
}

impl<FS: FileSystem> FileTree<FS> {
    /// The invariant of the tree: it hangs together, and each mounted
    /// file system is well-formed.
    pub closed spec fn inv(&self) -> bool {
        &&& self@.valid()
        &&& forall|i: int| 0 <= i < self.mounts@.len() ==> (#[trigger] self.mounts@[i]).fs.wf()
    }

    /// A well-formed tree hangs together.
    pub proof fn lemma_valid(&self)
        requires
            self.inv(),
        ensures
            self@.valid(),
    {
    }

    /// Create a new blank file system tree. It holds no file system and
    /// no directory entry yet, so it has no root.
    pub fn new() -> (tree: Self)
        ensures
            tree.inv(),
            tree@.mounts.len() == 0,
            tree@.paths.len() == 0,
            tree@.dentries.len() == 0,
            tree@.roots.len() == 0,
    {
        FileTree { mounts: Vec::new(), dentries: Vec::new(), roots: Vec::new() }
    }

    /// The place in the entry `dentry` of what is remembered of `name`.
    fn lookup(&self, dentry: usize, name: &str) -> (place: Option<usize>)
        requires
            dentry < self.dentries@.len(),
        ensures
            match place {
                Some(i) => lookup(self@.dentries[dentry as int].children, name@) == Some(i as int)
                    && i < self.dentries@[dentry as int].children@.len(),
                None => lookup(self@.dentries[dentry as int].children, name@) is None,
            },
    {
        let children = &self.dentries[dentry].children;
        let ghost model = self@.dentries[dentry as int].children;
        let mut i: usize = 0;
        while i < children.len()
            invariant
                i <= children@.len(),
                dentry < self.dentries@.len(),
                children@ == self.dentries@[dentry as int].children@,
                model == self@.dentries[dentry as int].children,
                model == Seq::new(children@.len(), |k: int| children@[k]@),
                lookup(model, name@) == lookup_from(model, name@, i as int),
            decreases children@.len() - i,
        {
            if same_str(children[i].name.as_str(), name) {
                return Some(i);
            }
            i = i + 1;
        }
        None
    }

    /// Resolves the one name `name` in the entry `dentry`.
    fn step(&mut self, dentry: usize, name: &str, flags: OpenFlags) -> (r: FsResult<usize>)
        requires
            old(self).inv(),
            dentry < old(self)@.dentries.len(),
        ensures
            final(self).inv(),
            (final(self)@, r) == step::<FS>(old(self)@, dentry, name@, flags),
            final(self)@.dentries.len() >= old(self)@.dentries.len(),
            final(self)@.roots == old(self)@.roots,
            final(self)@.paths == old(self)@.paths,
            r matches Ok(found) ==> found < final(self)@.dentries.len(),
    {
        if same_str(name, "..") {
            return match self.dentries[dentry].parent {
                Some(parent) => Ok(parent),
                None => Err(Errno::ENOENT),
            };
        }
        if same_str(name, ".") {
            return Ok(dentry);
        }
        match self.lookup(dentry, name) {
            Some(place) => {
                let stack = &self.dentries[dentry].children[place].stack;
                if stack.len() > 0 {
                    let top = stack[stack.len() - 1];
                    proof {
                        let remembered = self@.dentries[dentry as int].children[place as int];
                        assert(remembered.stack[stack@.len() - 1] == top);
                    }
                    Ok(top)
                } else {
                    Err(Errno::ENOENT)
                }
            },
            None => {
                let mount = self.dentries[dentry].mount;
                let node = self.dentries[dentry].node;
                proof {
                    assert(self@.dentries[dentry as int].mount == mount);
                }
                let r = self.mounts[mount].fs.open(node, name, flags);
                proof {
                    let opened = old(self)@.with_fs(
                        mount,
                        FS::open_model(old(self)@.mounts[mount as int], node, name@, flags).0,
                    );
                    assert(self@.mounts =~= opened.mounts);
                    assert(self@.paths =~= opened.paths);
                    assert(self@ =~= opened);
                }
                match r {
                    Err(e) => Err(e),
                    Ok(found) => {
                        let id = self.dentries.len();
                        let ghost opened = self@;
                        let mut stack: Vec<usize> = Vec::new();
                        stack.push(id);
                        self.dentries[dentry].children.push(
                            CacheEntry { name: name.to_owned(), stack },
                        );
                        self.dentries.push(
                            Dentry { mount, node: found, children: Vec::new(),
                                parent: Some(dentry) },
                        );
                        proof {
                            let want = opened.with_cached(dentry, name@, found);
                            assert(self@.dentries[dentry as int].children
                                =~= want.dentries[dentry as int].children);
                            assert(self@.dentries[id as int].children
                                =~= want.dentries[id as int].children);
                            assert(self@.dentries =~= want.dentries);
                            assert(self@.mounts =~= want.mounts);
                            assert(self@.paths =~= want.paths);
                            assert(self@ =~= want);
                            assert(self@.valid()) by {
                                assert forall|d: int, c: int, k: int|
                                    0 <= d < self@.dentries.len() && 0 <= c
                                        < self@.dentries[d].children.len() && 0 <= k
                                        < self@.dentries[d].children[c].stack.len() implies (
                                #[trigger] self@.dentries[d].children[c].stack[k])
                                    < self@.dentries.len() by {
                                    if d == dentry && c == opened.dentries[d].children.len() {
                                    } else if d < id {
                                        assert(opened.dentries[d].children[c].stack[k]
                                            < opened.dentries.len());
                                    }
                                }
                            }
                        }
                        Ok(id)
                    },
                }
            },
        }
    }
}

/// Dentry File: a handle on a directory entry of a tree, with the path
/// under which it was opened.
#[derive(Clone)]
pub struct DentryFile {
    dentry: usize,
    path: String,
}

impl DentryFile {
    /// The directory entry that the handle stands for.
    pub closed spec fn dentry(&self) -> usize {
        self.dentry
    }

    /// The path under which the handle was opened.
    pub closed spec fn path(&self) -> Seq<char> {
        self.path@
    }

    /// Whether the handle stands for an entry of the tree `t`.
    pub open spec fn valid_in<M>(&self, t: TreeModel<M>) -> bool {
        t.has(self.dentry())
    }

    /// Another handle on the same entry, under the same path.
    pub fn duplicate(&self) -> (copy: DentryFile)
        ensures
            copy.dentry() == self.dentry(),
            copy.path() == self.path(),
    {
        DentryFile { dentry: self.dentry, path: self.path.clone() }
    }

    /// The path under which the handle was opened.
    pub fn get_path(&self) -> (path: &str)
        ensures
            path@ == self.path(),
    {
        self.path.as_str()
    }
}

impl<FS: FileSystem> FileTree<FS> {
    /// Resolves the names of `names` from place `skip` on, one after the
    /// other, starting in the entry `start`.
    fn walk(&mut self, start: usize, names: &Vec<String>, skip: usize, flags: OpenFlags) -> (r:
        FsResult<usize>)
        requires
            old(self).inv(),
            start < old(self)@.dentries.len(),
            skip <= names@.len(),
        ensures
            final(self).inv(),
            (final(self)@, r) == walk::<FS>(
                old(self)@,
                start,
                parts_view(names@).skip(skip as int),
                flags,
            ),
            final(self)@.dentries.len() >= old(self)@.dentries.len(),
            final(self)@.roots == old(self)@.roots,
            final(self)@.paths == old(self)@.paths,
            r matches Ok(found) ==> found < final(self)@.dentries.len(),
    {
        let ghost all = parts_view(names@);
        let mut current = start;
        let mut i = skip;
        while i < names.len()
            invariant
                skip <= i <= names@.len(),
                all == parts_view(names@),
                self.inv(),
                current < self@.dentries.len(),
                self@.dentries.len() >= old(self)@.dentries.len(),
                self@.roots == old(self)@.roots,
                self@.paths == old(self)@.paths,
                walk::<FS>(old(self)@, start, all.skip(skip as int), flags) == walk::<FS>(
                    self@,
                    current,
                    all.skip(i as int),
                    flags,
                ),
            decreases names@.len() - i,
        {
            let with = if i + 1 == names.len() {
                flags
            } else {
                OpenFlags::from_bits(OpenFlags::DIRECTORY)
            };
            proof {
                assert(all.skip(i as int).first() == names@[i as int]@);
                assert(all.skip(i as int).drop_first() =~= all.skip(i + 1));
                assert(with == if all.skip(i as int).len() == 1 {
                    flags
                } else {
                    directory_flags()
                });
            }
            match self.step(current, names[i].as_str(), with) {
                Err(e) => {
                    return Err(e);
                },
                Ok(next) => {
                    current = next;
                },
            }
            i = i + 1;
        }
        Ok(current)
    }

    /// Resolves the path `path`, from the root in effect where the path
    /// starts with a separator, else from the entry `dentry`.
    fn resolve(&mut self, dentry: usize, path: &str, flags: OpenFlags) -> (r: FsResult<usize>)
        requires
            old(self).inv(),
            dentry < old(self)@.dentries.len(),
        ensures
            final(self).inv(),
            (final(self)@, r) == resolve::<FS>(old(self)@, dentry, path@, flags),
            final(self)@.dentries.len() >= old(self)@.dentries.len(),
            final(self)@.roots == old(self)@.roots,
            final(self)@.paths == old(self)@.paths,
            r matches Ok(found) ==> found < final(self)@.dentries.len(),
    {
        let names = split_path(path);
        if starts_at_root(path) {
            let root = self.roots[self.roots.len() - 1];
            proof {
                assert(parts_view(names@).skip(1) =~= components(path@).drop_first());
                assert(self@.roots[self@.roots.len() - 1] < self@.dentries.len());
            }
            self.walk(root, &names, 1, flags)
        } else {
            proof {
                assert(parts_view(names@).skip(0) =~= components(path@));
            }
            self.walk(dentry, &names, 0, flags)
        }
    }

    /// Mount a file system to the specified path. See [`mount`].
    pub fn mount(&mut self, path: &str, fs: FS) -> (r: FsResult<()>)
        requires
            old(self).inv(),
            fs.wf(),
        ensures
            final(self).inv(),
            (final(self)@, r) == mount::<FS>(old(self)@, path@, fs.model()),
            final(self)@.dentries.len() >= old(self)@.dentries.len(),
    {
        if same_str(path, "/") || same_str(path, "") || same_str(path, ".") {
            let node = fs.root_dir();
            let mount = self.mounts.len();
            let id = self.dentries.len();
            let ghost model = fs.model();
            self.mounts.push(MountPoint { path: path.to_owned(), fs });
            self.dentries.push(Dentry { mount, node, children: Vec::new(), parent: None });
            self.roots.push(id);
            proof {
                let want = old(self)@.with_root(path@, model, node);
                assert(self@.mounts =~= want.mounts);
                assert(self@.paths =~= want.paths);
                assert(self@.dentries[id as int].children =~= want.dentries[id as int].children);
                assert(self@.dentries =~= want.dentries);
                assert(self@.roots =~= want.roots);
                assert(self@ =~= want);
                assert(self@.valid()) by {
                    assert forall|d: int, c: int, k: int|
                        0 <= d < self@.dentries.len() && 0 <= c < self@.dentries[d].children.len()
                            && 0 <= k < self@.dentries[d].children[c].stack.len() implies (
                    #[trigger] self@.dentries[d].children[c].stack[k]) < self@.dentries.len() by {
                        if d < id {
                            let before = old(self)@;
                            assert(before.dentries[d].children[c].stack[k] < before.dentries.len());
                        }
                    }
                    assert forall|r: int| 0 <= r < self@.roots.len() implies
                        #[trigger] self@.roots[r]
                        < self@.dentries.len() by {
                        if r < old(self)@.roots.len() {
                            assert(old(self)@.roots[r] < old(self)@.dentries.len());
                        }
                    }
                }
            }
            return Ok(());
        }
        if self.roots.len() == 0 {
            return Err(Errno::ENOENT);
        }
        let root = self.roots[self.roots.len() - 1];
        proof {
            assert(old(self)@.roots[old(self)@.roots.len() - 1] < old(self)@.dentries.len());
        }
        let dentry = match self.resolve(root, path, OpenFlags::from_bits(OpenFlags::DIRECTORY)) {
            Ok(dentry) => dentry,
            Err(e) => {
                return Err(e);
            },
        };
        let parent = match self.dentries[dentry].parent {
            Some(parent) => parent,
            None => {
                return Err(Errno::ENOENT);
            },
        };
        proof {
            assert(self@.dentries[dentry as int].parent == Some(parent));
            lemma_components_nonempty(path@);
        }
        let names = split_path(path);
        let last = &names[names.len() - 1];
        proof {
            assert(parts_view(names@)[names@.len() - 1] == last@);
        }
        let place = match self.lookup(parent, last.as_str()) {
            Some(place) => place,
            None => {
                return Err(Errno::ENOENT);
            },
        };
        let node = fs.root_dir();
        let mount = self.mounts.len();
        let id = self.dentries.len();
        let ghost model = fs.model();
        let ghost found = self@;
        self.mounts.push(MountPoint { path: path.to_owned(), fs });
        self.dentries[parent].children[place].stack.push(id);
        self.dentries.push(Dentry { mount, node, children: Vec::new(), parent: Some(parent) });
        proof {
            let want = found.with_overlay(parent, place as int, path@, model, node);
            assert(self@.mounts =~= want.mounts);
            assert(self@.paths =~= want.paths);
            assert(self@.dentries[id as int].children =~= want.dentries[id as int].children);
            assert(self@.dentries[parent as int].children[place as int].stack
                =~= want.dentries[parent as int].children[place as int].stack);
            assert(self@.dentries[parent as int].children
                =~= want.dentries[parent as int].children);
            assert(self@.dentries =~= want.dentries);
            assert(self@ =~= want);
            assert(self@.valid()) by {
                assert forall|d: int, c: int, k: int|
                    0 <= d < self@.dentries.len() && 0 <= c < self@.dentries[d].children.len() && 0
                        <= k < self@.dentries[d].children[c].stack.len() implies (
                #[trigger] self@.dentries[d].children[c].stack[k]) < self@.dentries.len() by {
                    if d == parent && c == place && k == found.dentries[d].children[c].stack.len() {
                    } else if d < id {
                        assert(found.dentries[d].children[c].stack[k] < found.dentries.len());
                    }
                }
            }
        }
        Ok(())
    }

    /// The root of the tree: a handle on the entry of the root in
    /// effect, under the path `/`. There must be a root.
    pub fn root(&self) -> (file: DentryFile)
        requires
            self.inv(),
            self@.has_root(),
        ensures
            file.dentry() == self@.root(),
            file.valid_in(self@),
            file.path() == "/"@,
    {
        proof {
            assert(self@.roots[self@.roots.len() - 1] < self@.dentries.len());
        }
        DentryFile { dentry: self.roots[self.roots.len() - 1], path: "/".to_owned() }
    }

    /// Whether a file system is mounted at the root.
    pub fn has_root(&self) -> (r: bool)
        ensures
            r == self@.has_root(),
    {
        self.roots.len() > 0
    }
}

} // verus!
