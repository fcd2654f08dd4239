//! The model of the file system tree: the directory entries, how a
//! path is resolved through them, how a file system is mounted, and what
//! holds of mounting and resolving together.

use vstd::prelude::*;

use crate::fs::base::{Errno, FileSystem, FsResult, INodeInterface, OpenFlags};
use crate::fs::path::{components, is_absolute};

verus! {

/// The model of what a directory entry remembers of one name: the
/// entries that the name stands for, the one on top last.
#[verifier::ext_equal]
pub struct CacheModel {
    pub name: Seq<char>,
    pub stack: Seq<usize>,
}

/// The model of a directory entry: the mounted file system and the
/// node it stands for, what it remembers of the names looked up in it,
/// and the entry of its parent directory.
#[verifier::ext_equal]
pub struct DentryModel {
    pub mount: usize,
    pub node: usize,
    pub children: Seq<CacheModel>,
    pub parent: Option<usize>,
}

/// The model of the tree: the models of the mounted file systems
/// and the paths they were mounted at, the directory entries, and the
/// entries of the roots, the one in effect last.
#[verifier::ext_equal]
pub struct TreeModel<M> {
    pub mounts: Seq<M>,
    pub paths: Seq<Seq<char>>,
    pub dentries: Seq<DentryModel>,
    pub roots: Seq<usize>,
}

/// The place in `children`, from `from` on, of what is remembered of
/// `name`.
pub open spec fn lookup_from(children: Seq<CacheModel>, name: Seq<char>, from: int) -> Option<int>
    decreases children.len() - from,
{
    if from < 0 || from >= children.len() {
        None
    } else if children[from].name == name {
        Some(from)
    } else {
        lookup_from(children, name, from + 1)
    }
}

/// The place in `children` of what is remembered of `name`.
pub open spec fn lookup(children: Seq<CacheModel>, name: Seq<char>) -> Option<int> {
    lookup_from(children, name, 0)
}

/// What is found is a place in `children`, and holds the name.
pub proof fn lemma_lookup(children: Seq<CacheModel>, name: Seq<char>, from: int)
    requires
        0 <= from,
    ensures
        lookup_from(children, name, from) matches Some(i) ==> from <= i < children.len()
            && children[i].name == name,
    decreases children.len() - from,
{
    if from < children.len() && children[from].name != name {
        lemma_lookup(children, name, from + 1);
    }
}

/// The flags with which a directory on the way is opened.
pub open spec fn directory_flags() -> OpenFlags {
    OpenFlags { bits: OpenFlags::DIRECTORY }
}

impl<M> TreeModel<M> {
    /// Whether a file system is mounted at the root.
    pub open spec fn has_root(self) -> bool {
        self.roots.len() > 0
    }

    /// The entry of the root in effect: that of the file system mounted
    /// at the root last.
    pub open spec fn root(self) -> usize {
        self.roots.last()
    }

    /// Whether `dentry` is an entry of the tree.
    pub open spec fn has(self, dentry: usize) -> bool {
        dentry < self.dentries.len()
    }

    /// The tree with the model of the file system `mount` replaced.
    pub open spec fn with_fs(self, mount: usize, fs: M) -> TreeModel<M> {
        TreeModel { mounts: self.mounts.update(mount as int, fs), ..self }
    }

    /// The tree with a new entry for the node `node` that was found
    /// under `name` in the entry `parent`, remembered there.
    pub open spec fn with_cached(self, parent: usize, name: Seq<char>, node: usize) -> TreeModel<
        M,
    > {
        let dir = self.dentries[parent as int];
        TreeModel {
            dentries: self.dentries.update(
                parent as int,
                DentryModel {
                    children: dir.children.push(
                        CacheModel { name, stack: seq![self.dentries.len() as usize] },
                    ),
                    ..dir
                },
            ).push(
                DentryModel {
                    mount: dir.mount,
                    node,
                    children: Seq::empty(),
                    parent: Some(parent),
                },
            ),
            ..self
        }
    }

    /// The tree with the file system `fs`, whose root is the node `node`,
    /// mounted at the root under the path `path`: its root gets a new
    /// entry, without parent and with nothing remembered, which is the
    /// root in effect from now on.
    pub open spec fn with_root(self, path: Seq<char>, fs: M, node: usize) -> TreeModel<M> {
        TreeModel {
            mounts: self.mounts.push(fs),
            paths: self.paths.push(path),
            dentries: self.dentries.push(
                DentryModel {
                    mount: self.mounts.len() as usize,
                    node,
                    children: Seq::empty(),
                    parent: None,
                },
            ),
            roots: self.roots.push(self.dentries.len() as usize),
        }
    }

    /// The tree with the file system `fs`, whose root is the node `node`,
    /// mounted under the path `path` over the name remembered at place
    /// `place` of the entry `parent`: its root gets a new entry, which
    /// goes on top of what the name stands for.
    pub open spec fn with_overlay(
        self,
        parent: usize,
        place: int,
        path: Seq<char>,
        fs: M,
        node: usize,
    ) -> TreeModel<M> {
        let dir = self.dentries[parent as int];
        let cached = dir.children[place];
        TreeModel {
            mounts: self.mounts.push(fs),
            paths: self.paths.push(path),
            dentries: self.dentries.update(
                parent as int,
                DentryModel {
                    children: dir.children.update(
                        place,
                        CacheModel {
                            stack: cached.stack.push(self.dentries.len() as usize),
                            ..cached
                        },
                    ),
                    ..dir
                },
            ).push(
                DentryModel {
                    mount: self.mounts.len() as usize,
                    node,
                    children: Seq::empty(),
                    parent: Some(parent),
                },
            ),
            roots: self.roots,
        }
    }
}

/// Resolves the one name `name` in the entry `dentry`: `..` is the
/// parent, and an error at a root; `.` is the entry itself; a name that
/// is remembered is the entry on top of what it stands for; any other
/// name is opened in the file system with the flags `flags`, and what is
/// found gets a new entry, which is remembered under the name.
pub open spec fn step<FS: INodeInterface>(
    t: TreeModel<FS::Model>,
    dentry: usize,
    name: Seq<char>,
    flags: OpenFlags,
) -> (TreeModel<FS::Model>, FsResult<usize>) {
    let dir = t.dentries[dentry as int];
    if name == ".."@ {
        match dir.parent {
            Some(parent) => (t, Ok(parent)),
            None => (t, Err(Errno::ENOENT)),
        }
    } else if name == "."@ {
        (t, Ok(dentry))
    } else {
        match lookup(dir.children, name) {
            Some(place) => if dir.children[place].stack.len() > 0 {
                (t, Ok(dir.children[place].stack.last()))
            } else {
                (t, Err(Errno::ENOENT))
            },
            None => {
                let (fs, r) = FS::open_model(t.mounts[dir.mount as int], dir.node, name, flags);
                let opened = t.with_fs(dir.mount, fs);
                match r {
                    Err(e) => (opened, Err(e)),
                    Ok(node) => (
                        opened.with_cached(dentry, name, node),
                        Ok(t.dentries.len() as usize),
                    ),
                }
            },
        }
    }
}

/// Resolves the names `names` one after the other, starting in the
/// entry `dentry`. Each name but the last is opened as a directory; the
/// last one is opened with the flags `flags`. The first error ends the
/// walk.
pub open spec fn walk<FS: INodeInterface>(
    t: TreeModel<FS::Model>,
    dentry: usize,
    names: Seq<Seq<char>>,
    flags: OpenFlags,
) -> (TreeModel<FS::Model>, FsResult<usize>)
    decreases names.len(),
{
    if names.len() == 0 {
        (t, Ok(dentry))
    } else {
        let (after, r) = step::<FS>(
            t,
            dentry,
            names.first(),
            if names.len() == 1 {
                flags
            } else {
                directory_flags()
            },
        );
        match r {
            Err(e) => (after, Err(e)),
            Ok(next) => walk::<FS>(after, next, names.drop_first(), flags),
        }
    }
}

/// Resolves the path `path`, from the root in effect where the path
/// starts with a separator, else from the entry `dentry`.
pub open spec fn resolve<FS: INodeInterface>(
    t: TreeModel<FS::Model>,
    dentry: usize,
    path: Seq<char>,
    flags: OpenFlags,
) -> (TreeModel<FS::Model>, FsResult<usize>) {
    if is_absolute(path) {
        walk::<FS>(t, t.root(), components(path).drop_first(), flags)
    } else {
        walk::<FS>(t, dentry, components(path), flags)
    }
}

/// Whether a path names the root of the tree.
pub open spec fn names_root(path: Seq<char>) -> bool {
    path == "/"@ || path == ""@ || path == "."@
}

/// Mounts the file system `fs` at `path`. At the root it becomes the
/// root in effect. Elsewhere the path is resolved from the root, and the
/// root of the file system goes on top of what the last name of the path
/// stands for in the parent directory; that fails where there is no
/// root, where the path does not resolve, where what it resolves to has
/// no parent, and where the parent does not remember the last name.
pub open spec fn mount<FS: FileSystem>(t: TreeModel<FS::Model>, path: Seq<char>, fs: FS::Model)
    -> (TreeModel<FS::Model>, FsResult<()>) {
    if names_root(path) {
        (t.with_root(path, fs, FS::root_model(fs)), Ok(()))
    } else if !t.has_root() {
        (t, Err(Errno::ENOENT))
    } else {
        let (found, r) = resolve::<FS>(t, t.root(), path, directory_flags());
        match r {
            Err(e) => (found, Err(e)),
            Ok(dentry) => match found.dentries[dentry as int].parent {
                None => (found, Err(Errno::ENOENT)),
                Some(parent) => match lookup(
                    found.dentries[parent as int].children,
                    components(path).last(),
                ) {
                    None => (found, Err(Errno::ENOENT)),
                    Some(place) => (
                        found.with_overlay(parent, place, path, fs, FS::root_model(fs)),
                        Ok(()),
                    ),
                },
            },
        }
    }
}

impl<M> TreeModel<M> {
    /// Whether the tree hangs together: every entry belongs to a mounted
    /// file system; every entry that is named, as a parent, as what a
    /// name stands for, or as a root, is an entry of the tree; and a tree
    /// with entries has a root.
    pub open spec fn valid(self) -> bool {
        &&& self.paths.len() == self.mounts.len()
        &&& forall|d: int|
            0 <= d < self.dentries.len() ==> (#[trigger] self.dentries[d]).mount
                < self.mounts.len()
        &&& forall|d: int|
            0 <= d < self.dentries.len() ==> ((#[trigger] self.dentries[d]).parent matches Some(p)
                ==> p < self.dentries.len())
        &&& forall|d: int, c: int, k: int|
            0 <= d < self.dentries.len() && 0 <= c < self.dentries[d].children.len() && 0 <= k
                < self.dentries[d].children[c].stack.len() ==> (
            #[trigger] self.dentries[d].children[c].stack[k]) < self.dentries.len()
        &&& forall|r: int| 0 <= r < self.roots.len() ==>
            #[trigger] self.roots[r] < self.dentries.len()
        &&& self.dentries.len() > 0 ==> self.roots.len() > 0
    }
}

impl<M> TreeModel<M> {
    /// The model of the file system that the entry `dentry` belongs to.
    pub open spec fn fs_of(self, dentry: usize) -> M {
        self.mounts[self.dentries[dentry as int].mount as int]
    }

    /// The node that the entry `dentry` stands for.
    pub open spec fn node_of(self, dentry: usize) -> usize {
        self.dentries[dentry as int].node
    }

    /// The tree after an operation on the node of the entry `dentry`
    /// that left the entry's file system as `fs`.
    pub open spec fn with_fs_of(self, dentry: usize, fs: M) -> TreeModel<M> {
        self.with_fs(self.dentries[dentry as int].mount, fs)
    }
}

impl<M> TreeModel<M> {
    /// Whether the entries from `from` on lead only to one another: the
    /// parent of each, and every entry that a name stands for in it, is
    /// an entry from `from` on.
    pub open spec fn sealed(self, from: usize) -> bool {
        &&& forall|d: int|
            from <= d < self.dentries.len() ==> ((#[trigger] self.dentries[d]).parent matches Some(
                p,
            ) ==> p >= from)
        &&& forall|d: int, c: int, k: int|
            from <= d < self.dentries.len() && 0 <= c < self.dentries[d].children.len() && 0 <= k
                < self.dentries[d].children[c].stack.len() ==> (
            #[trigger] self.dentries[d].children[c].stack[k]) >= from
    }
}

/// A file system that is mounted at the root becomes the root in effect:
/// the root is a new entry of the tree that stands for the root node of
/// that file system, has no parent and remembers nothing. What the tree
/// held before is still there, and the entries from the new root on lead
/// only to one another.
pub proof fn lemma_mount_at_root<FS: FileSystem>(
    t: TreeModel<FS::Model>,
    path: Seq<char>,
    fs: FS::Model,
)
    requires
        t.valid(),
        names_root(path),
        t.dentries.len() < usize::MAX,
        t.mounts.len() < usize::MAX,
    ensures
        ({
            let (after, r) = mount::<FS>(t, path, fs);
            let root = after.dentries[after.root() as int];
            &&& r is Ok
            &&& after.valid()
            &&& after.has_root()
            &&& after.root() == t.dentries.len()
            &&& after.mounts[root.mount as int] == fs
            &&& root.node == FS::root_model(fs)
            &&& root.parent is None
            &&& root.children.len() == 0
            &&& after.dentries.subrange(0, t.dentries.len() as int) == t.dentries
            &&& after.mounts.subrange(0, t.mounts.len() as int) == t.mounts
            &&& after.sealed(after.root())
        }),
{
    let (after, r) = mount::<FS>(t, path, fs);
    assert(after.dentries.subrange(0, t.dentries.len() as int) =~= t.dentries);
    assert(after.mounts.subrange(0, t.mounts.len() as int) =~= t.mounts);
    assert forall|d: int, c: int, k: int|
        0 <= d < after.dentries.len() && 0 <= c < after.dentries[d].children.len() && 0 <= k
            < after.dentries[d].children[c].stack.len() implies (
    #[trigger] after.dentries[d].children[c].stack[k]) < after.dentries.len() by {
        if d < t.dentries.len() {
            assert(t.dentries[d].children[c].stack[k] < t.dentries.len());
        }
    }
    assert forall|r: int| 0 <= r < after.roots.len() implies #[trigger] after.roots[r]
        < after.dentries.len() by {
        if r < t.roots.len() {
            assert(t.roots[r] < t.dentries.len());
        }
    }
}

/// Of two file systems that are mounted at the root one after the other,
/// the second is the root in effect; the root entry of the first is
/// still an entry of the tree, but another one.
pub proof fn lemma_second_root_shadows_first<FS: FileSystem>(
    t: TreeModel<FS::Model>,
    first_path: Seq<char>,
    first: FS::Model,
    second_path: Seq<char>,
    second: FS::Model,
)
    requires
        t.valid(),
        names_root(first_path),
        names_root(second_path),
        t.dentries.len() + 1 < usize::MAX,
        t.mounts.len() + 1 < usize::MAX,
    ensures
        ({
            let (one, _) = mount::<FS>(t, first_path, first);
            let (two, r) = mount::<FS>(one, second_path, second);
            let root = two.dentries[two.root() as int];
            &&& r is Ok
            &&& two.root() != one.root()
            &&& two.mounts[root.mount as int] == second
            &&& root.node == FS::root_model(second)
            &&& two.has(one.root())
            &&& two.dentries[one.root() as int] == one.dentries[one.root() as int]
            &&& two.sealed(two.root())
        }),
{
    lemma_mount_at_root::<FS>(t, first_path, first);
    let (one, _) = mount::<FS>(t, first_path, first);
    lemma_mount_at_root::<FS>(one, second_path, second);
    let (two, _) = mount::<FS>(one, second_path, second);
    assert(two.dentries.subrange(0, one.dentries.len() as int)[one.root() as int]
        == two.dentries[one.root() as int]);
}

/// In a tree whose entries from `from` on lead only to one another, a
/// name that is resolved in one of them leads to one of them again, and
/// leaves the tree so.
pub proof fn lemma_step_stays<FS: INodeInterface>(
    t: TreeModel<FS::Model>,
    from: usize,
    dentry: usize,
    name: Seq<char>,
    flags: OpenFlags,
)
    requires
        t.valid(),
        t.sealed(from),
        from <= dentry < t.dentries.len(),
        t.dentries.len() < usize::MAX,
    ensures
        ({
            let (after, r) = step::<FS>(t, dentry, name, flags);
            &&& after.sealed(from)
            &&& after.dentries.len() >= t.dentries.len()
            &&& after.dentries.len() <= t.dentries.len() + 1
            &&& after.roots == t.roots
            &&& r matches Ok(found) ==> from <= found < after.dentries.len()
            &&& forall|d: int|
                0 <= d < from ==> #[trigger] after.dentries[d] == t.dentries[d]
        }),
{
    let (after, r) = step::<FS>(t, dentry, name, flags);
    let dir = t.dentries[dentry as int];
    if name == ".."@ || name == "."@ {
    } else {
        match lookup(dir.children, name) {
            Some(place) => {
                lemma_lookup(dir.children, name, 0);
                if dir.children[place].stack.len() > 0 {
                    let top = dir.children[place].stack.len() - 1;
                    assert(t.dentries[dentry as int].children[place].stack[top] >= from);
                    assert(t.dentries[dentry as int].children[place].stack[top]
                        < t.dentries.len());
                }
            },
            None => {
                if r is Ok {
                    assert forall|d: int, c: int, k: int|
                        from <= d < after.dentries.len() && 0 <= c
                            < after.dentries[d].children.len() && 0 <= k
                            < after.dentries[d].children[c].stack.len() implies (
                    #[trigger] after.dentries[d].children[c].stack[k]) >= from by {
                        if d == dentry && c == dir.children.len() {
                        } else if d < t.dentries.len() {
                            assert(t.dentries[d].children[c].stack[k] >= from);
                        }
                    }
                    assert forall|d: int| from <= d < after.dentries.len() implies ((
                    #[trigger] after.dentries[d]).parent matches Some(p) ==> p >= from) by {
                        if d < t.dentries.len() && d != dentry {
                            assert(after.dentries[d] == t.dentries[d]);
                        }
                    }
                } else {
                    assert(after.dentries == t.dentries);
                }
            },
        }
    }
}

/// A name that is resolved leaves the tree hanging together.
pub proof fn lemma_step_valid<FS: INodeInterface>(
    t: TreeModel<FS::Model>,
    dentry: usize,
    name: Seq<char>,
    flags: OpenFlags,
)
    requires
        t.valid(),
        dentry < t.dentries.len(),
        t.dentries.len() < usize::MAX,
    ensures
        step::<FS>(t, dentry, name, flags).0.valid(),
{
    let (after, r) = step::<FS>(t, dentry, name, flags);
    let dir = t.dentries[dentry as int];
    if name == ".."@ || name == "."@ {
    } else if lookup(dir.children, name) is None {
        if r is Ok {
            assert forall|d: int, c: int, k: int|
                0 <= d < after.dentries.len() && 0 <= c < after.dentries[d].children.len() && 0
                    <= k < after.dentries[d].children[c].stack.len() implies (
            #[trigger] after.dentries[d].children[c].stack[k]) < after.dentries.len() by {
                if d == dentry && c == dir.children.len() {
                } else if d < t.dentries.len() {
                    assert(t.dentries[d].children[c].stack[k] < t.dentries.len());
                }
            }
            assert forall|d: int| 0 <= d < after.dentries.len() implies (
            #[trigger] after.dentries[d]).mount < after.mounts.len() by {
                if d < t.dentries.len() {
                    assert(t.dentries[d].mount < t.mounts.len());
                }
            }
            assert forall|d: int| 0 <= d < after.dentries.len() implies ((
            #[trigger] after.dentries[d]).parent matches Some(p) ==> p < after.dentries.len()) by {
                if d < t.dentries.len() && d != dentry {
                    assert(after.dentries[d] == t.dentries[d]);
                }
            }
        } else {
            assert(after.dentries == t.dentries);
        }
    }
}

/// In a tree whose entries from `from` on lead only to one another, a
/// path that is walked from one of them ends at one of them, whatever
/// its names are. So what lies before `from`, such as the root of a
/// file system that another one was mounted over at the root, is not
/// reached from there.
pub proof fn lemma_walk_stays<FS: INodeInterface>(
    t: TreeModel<FS::Model>,
    from: usize,
    dentry: usize,
    names: Seq<Seq<char>>,
    flags: OpenFlags,
)
    requires
        t.valid(),
        t.sealed(from),
        from <= dentry < t.dentries.len(),
        t.dentries.len() + names.len() < usize::MAX,
    ensures
        ({
            let (after, r) = walk::<FS>(t, dentry, names, flags);
            &&& after.valid()
            &&& after.sealed(from)
            &&& after.roots == t.roots
            &&& r matches Ok(found) ==> from <= found < after.dentries.len()
            &&& forall|d: int|
                0 <= d < from ==> #[trigger] after.dentries[d] == t.dentries[d]
        }),
    decreases names.len(),
{
    if names.len() > 0 {
        let with = if names.len() == 1 {
            flags
        } else {
            directory_flags()
        };
        lemma_step_stays::<FS>(t, from, dentry, names.first(), with);
        lemma_step_valid::<FS>(t, dentry, names.first(), with);
        let (after, r) = step::<FS>(t, dentry, names.first(), with);
        match r {
            Ok(next) => {
                lemma_walk_stays::<FS>(after, from, next, names.drop_first(), flags);
            },
            Err(_) => {},
        }
    }
}

} // verus!
