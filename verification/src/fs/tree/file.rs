//! The operations of an open node: a handle on a directory entry of
//! the tree.

use vstd::prelude::*;
use vstd::string::StringExecFns;

use crate::fs::base::{
    as_modelled_or_no_space, entries_view, DirEntry, DirEntryModel, Errno, FileSystem,
    FsResult, INodeInterface, Metadata, MetadataModel, OpenFlags, PollEvent, Stat, StatFS,
    TimeSpec,
};
use crate::fs::tree::model::resolve;
use crate::fs::tree::{DentryFile, FileTree};
use crate::utils::overlay;

verus! {

impl DentryFile {
    /// Open a file by its path, from the root of the tree where the path
    /// starts with a separator, else from this entry. See [`resolve`].
    pub fn open<FS: FileSystem>(&self, tree: &mut FileTree<FS>, name: &str, flags: OpenFlags) -> (r:
        FsResult<DentryFile>)
        requires
            old(tree).inv(),
            self.valid_in(old(tree)@),
        ensures
            final(tree).inv(),
            final(tree)@.dentries.len() >= old(tree)@.dentries.len(),
            final(tree)@.roots == old(tree)@.roots,
            match r {
                Ok(file) => {
                    &&& (final(tree)@, Ok::<usize, Errno>(file.dentry())) == resolve::<FS>(
                        old(tree)@,
                        self.dentry(),
                        name@,
                        flags,
                    )
                    &&& file.valid_in(final(tree)@)
                    &&& file.path() == self.path() + "/"@ + name@
                },
                Err(e) => (final(tree)@, Err::<usize, Errno>(e)) == resolve::<FS>(
                    old(tree)@,
                    self.dentry(),
                    name@,
                    flags,
                ),
            },
    {
        match tree.resolve(self.dentry, name, flags) {
            Ok(dentry) => {
                let mut path = self.path.clone();
                path.append("/");
                path.append(name);
                Ok(DentryFile { dentry, path })
            },
            Err(e) => Err(e),
        }
    }
}

/// The operations of an open node. Each hands the call on to the node of
/// the file system that the handle's entry stands for, and answers what
/// the file system answers; the tree adds nothing of its own.
impl DentryFile {

    /// Write the buffer in the offset.
    pub fn writeat<FS: FileSystem>(&self, tree: &mut FileTree<FS>, offset: usize,
        buffer: &[u8]) -> (r: FsResult<usize>)
        requires
            old(tree).inv(),
            self.valid_in(old(tree)@),
        ensures
            final(tree).inv(),
            final(tree)@ == old(tree)@.with_fs_of(self.dentry(), final(tree)@.fs_of(self.dentry())),
            as_modelled_or_no_space(
                old(tree)@.fs_of(self.dentry()),
                FS::writeat_model(
                    old(tree)@.fs_of(self.dentry()),
                    old(tree)@.node_of(self.dentry()), offset, buffer@,
                ),
                final(tree)@.fs_of(self.dentry()),
                r,
            ),
    {
        let mount = tree.dentries[self.dentry].mount;
        let node = tree.dentries[self.dentry].node;
        proof {
            assert(tree@.dentries[self.dentry as int].mount == mount);
        }
        let r = tree.mounts[mount].fs.writeat(node, offset, buffer);
        proof {
            let want = old(tree)@.with_fs_of(self.dentry(), tree@.fs_of(self.dentry()));
            assert(tree@.mounts =~= want.mounts);
            assert(tree@.paths =~= want.paths);
            assert(tree@ =~= want);
        }
        r
    }

    /// Create a new directory with name
    pub fn mkdir<FS: FileSystem>(&self, tree: &mut FileTree<FS>, name: &str) -> (r: FsResult<usize>)
        requires
            old(tree).inv(),
            self.valid_in(old(tree)@),
        ensures
            final(tree).inv(),
            final(tree)@ == old(tree)@.with_fs_of(
                self.dentry(),
                FS::mkdir_model(
                    old(tree)@.fs_of(self.dentry()),
                    old(tree)@.node_of(self.dentry()), name@,
                ).0,
            ),
            r == FS::mkdir_model(
                old(tree)@.fs_of(self.dentry()),
                old(tree)@.node_of(self.dentry()), name@,
            ).1,
    {
        let mount = tree.dentries[self.dentry].mount;
        let node = tree.dentries[self.dentry].node;
        proof {
            assert(tree@.dentries[self.dentry as int].mount == mount);
        }
        let r = tree.mounts[mount].fs.mkdir(node, name);
        proof {
            let want = old(tree)@.with_fs_of(
                self.dentry(),
                FS::mkdir_model(
                    old(tree)@.fs_of(self.dentry()),
                    old(tree)@.node_of(self.dentry()), name@,
                ).0,
            );
            assert(tree@.mounts =~= want.mounts);
            assert(tree@.paths =~= want.paths);
            assert(tree@ =~= want);
        }
        r
    }

    /// Remove a directory with name
    pub fn rmdir<FS: FileSystem>(&self, tree: &mut FileTree<FS>, name: &str) -> (r: FsResult<()>)
        requires
            old(tree).inv(),
            self.valid_in(old(tree)@),
        ensures
            final(tree).inv(),
            final(tree)@ == old(tree)@.with_fs_of(
                self.dentry(),
                FS::rmdir_model(
                    old(tree)@.fs_of(self.dentry()),
                    old(tree)@.node_of(self.dentry()), name@,
                ).0,
            ),
            r == FS::rmdir_model(
                old(tree)@.fs_of(self.dentry()),
                old(tree)@.node_of(self.dentry()), name@,
            ).1,
    {
        let mount = tree.dentries[self.dentry].mount;
        let node = tree.dentries[self.dentry].node;
        proof {
            assert(tree@.dentries[self.dentry as int].mount == mount);
        }
        let r = tree.mounts[mount].fs.rmdir(node, name);
        proof {
            let want = old(tree)@.with_fs_of(
                self.dentry(),
                FS::rmdir_model(
                    old(tree)@.fs_of(self.dentry()),
                    old(tree)@.node_of(self.dentry()), name@,
                ).0,
            );
            assert(tree@.mounts =~= want.mounts);
            assert(tree@.paths =~= want.paths);
            assert(tree@ =~= want);
        }
        r
    }

    /// Remove a file with name
    pub fn remove<FS: FileSystem>(&self, tree: &mut FileTree<FS>, name: &str) -> (r: FsResult<()>)
        requires
            old(tree).inv(),
            self.valid_in(old(tree)@),
        ensures
            final(tree).inv(),
            final(tree)@ == old(tree)@.with_fs_of(
                self.dentry(),
                FS::remove_model(
                    old(tree)@.fs_of(self.dentry()),
                    old(tree)@.node_of(self.dentry()), name@,
                ).0,
            ),
            r == FS::remove_model(
                old(tree)@.fs_of(self.dentry()),
                old(tree)@.node_of(self.dentry()), name@,
            ).1,
    {
        let mount = tree.dentries[self.dentry].mount;
        let node = tree.dentries[self.dentry].node;
        proof {
            assert(tree@.dentries[self.dentry as int].mount == mount);
        }
        let r = tree.mounts[mount].fs.remove(node, name);
        proof {
            let want = old(tree)@.with_fs_of(
                self.dentry(),
                FS::remove_model(
                    old(tree)@.fs_of(self.dentry()),
                    old(tree)@.node_of(self.dentry()), name@,
                ).0,
            );
            assert(tree@.mounts =~= want.mounts);
            assert(tree@.paths =~= want.paths);
            assert(tree@ =~= want);
        }
        r
    }

    /// IOCTL for device and socket
    pub fn ioctl<FS: FileSystem>(&self, tree: &mut FileTree<FS>, command: usize, arg: usize)
        -> (r: FsResult<usize>)
        requires
            old(tree).inv(),
            self.valid_in(old(tree)@),
        ensures
            final(tree).inv(),
            final(tree)@ == old(tree)@.with_fs_of(
                self.dentry(),
                FS::ioctl_model(
                    old(tree)@.fs_of(self.dentry()),
                    old(tree)@.node_of(self.dentry()), command, arg,
                ).0,
            ),
            r == FS::ioctl_model(
                old(tree)@.fs_of(self.dentry()),
                old(tree)@.node_of(self.dentry()), command, arg,
            ).1,
    {
        let mount = tree.dentries[self.dentry].mount;
        let node = tree.dentries[self.dentry].node;
        proof {
            assert(tree@.dentries[self.dentry as int].mount == mount);
        }
        let r = tree.mounts[mount].fs.ioctl(node, command, arg);
        proof {
            let want = old(tree)@.with_fs_of(
                self.dentry(),
                FS::ioctl_model(
                    old(tree)@.fs_of(self.dentry()),
                    old(tree)@.node_of(self.dentry()), command, arg,
                ).0,
            );
            assert(tree@.mounts =~= want.mounts);
            assert(tree@.paths =~= want.paths);
            assert(tree@ =~= want);
        }
        r
    }

    /// truncate the file with size
    pub fn truncate<FS: FileSystem>(&self, tree: &mut FileTree<FS>, size: usize)
        -> (r: FsResult<()>)
        requires
            old(tree).inv(),
            self.valid_in(old(tree)@),
        ensures
            final(tree).inv(),
            final(tree)@ == old(tree)@.with_fs_of(self.dentry(), final(tree)@.fs_of(self.dentry())),
            as_modelled_or_no_space(
                old(tree)@.fs_of(self.dentry()),
                FS::truncate_model(
                    old(tree)@.fs_of(self.dentry()),
                    old(tree)@.node_of(self.dentry()), size,
                ),
                final(tree)@.fs_of(self.dentry()),
                r,
            ),
    {
        let mount = tree.dentries[self.dentry].mount;
        let node = tree.dentries[self.dentry].node;
        proof {
            assert(tree@.dentries[self.dentry as int].mount == mount);
        }
        let r = tree.mounts[mount].fs.truncate(node, size);
        proof {
            let want = old(tree)@.with_fs_of(self.dentry(), tree@.fs_of(self.dentry()));
            assert(tree@.mounts =~= want.mounts);
            assert(tree@.paths =~= want.paths);
            assert(tree@ =~= want);
        }
        r
    }

    /// Flush the file cache.
    pub fn flush<FS: FileSystem>(&self, tree: &mut FileTree<FS>) -> (r: FsResult<()>)
        requires
            old(tree).inv(),
            self.valid_in(old(tree)@),
        ensures
            final(tree).inv(),
            final(tree)@ == old(tree)@.with_fs_of(
                self.dentry(),
                FS::flush_model(
                    old(tree)@.fs_of(self.dentry()),
                    old(tree)@.node_of(self.dentry()),
                ).0,
            ),
            r == FS::flush_model(
                old(tree)@.fs_of(self.dentry()),
                old(tree)@.node_of(self.dentry()),
            ).1,
    {
        let mount = tree.dentries[self.dentry].mount;
        let node = tree.dentries[self.dentry].node;
        proof {
            assert(tree@.dentries[self.dentry as int].mount == mount);
        }
        let r = tree.mounts[mount].fs.flush(node);
        proof {
            let want = old(tree)@.with_fs_of(
                self.dentry(),
                FS::flush_model(
                    old(tree)@.fs_of(self.dentry()),
                    old(tree)@.node_of(self.dentry()),
                ).0,
            );
            assert(tree@.mounts =~= want.mounts);
            assert(tree@.paths =~= want.paths);
            assert(tree@ =~= want);
        }
        r
    }

    /// Create a link file in the current directory with filename(name) and link path(src).
    pub fn link<FS: FileSystem>(&self, tree: &mut FileTree<FS>, name: &str, src: &str)
        -> (r: FsResult<()>)
        requires
            old(tree).inv(),
            self.valid_in(old(tree)@),
        ensures
            final(tree).inv(),
            final(tree)@ == old(tree)@.with_fs_of(
                self.dentry(),
                FS::link_model(
                    old(tree)@.fs_of(self.dentry()),
                    old(tree)@.node_of(self.dentry()), name@, src@,
                ).0,
            ),
            r == FS::link_model(
                old(tree)@.fs_of(self.dentry()),
                old(tree)@.node_of(self.dentry()), name@, src@,
            ).1,
    {
        let mount = tree.dentries[self.dentry].mount;
        let node = tree.dentries[self.dentry].node;
        proof {
            assert(tree@.dentries[self.dentry as int].mount == mount);
        }
        let r = tree.mounts[mount].fs.link(node, name, src);
        proof {
            let want = old(tree)@.with_fs_of(
                self.dentry(),
                FS::link_model(
                    old(tree)@.fs_of(self.dentry()),
                    old(tree)@.node_of(self.dentry()), name@, src@,
                ).0,
            );
            assert(tree@.mounts =~= want.mounts);
            assert(tree@.paths =~= want.paths);
            assert(tree@ =~= want);
        }
        r
    }

    /// Create a symbolic link file in the current directory with filename(name) and link path(src).
    pub fn sym_link<FS: FileSystem>(&self, tree: &mut FileTree<FS>, name: &str, src: &str)
        -> (r: FsResult<()>)
        requires
            old(tree).inv(),
            self.valid_in(old(tree)@),
        ensures
            final(tree).inv(),
            final(tree)@ == old(tree)@.with_fs_of(
                self.dentry(),
                FS::sym_link_model(
                    old(tree)@.fs_of(self.dentry()),
                    old(tree)@.node_of(self.dentry()), name@, src@,
                ).0,
            ),
            r == FS::sym_link_model(
                old(tree)@.fs_of(self.dentry()),
                old(tree)@.node_of(self.dentry()), name@, src@,
            ).1,
    {
        let mount = tree.dentries[self.dentry].mount;
        let node = tree.dentries[self.dentry].node;
        proof {
            assert(tree@.dentries[self.dentry as int].mount == mount);
        }
        let r = tree.mounts[mount].fs.sym_link(node, name, src);
        proof {
            let want = old(tree)@.with_fs_of(
                self.dentry(),
                FS::sym_link_model(
                    old(tree)@.fs_of(self.dentry()),
                    old(tree)@.node_of(self.dentry()), name@, src@,
                ).0,
            );
            assert(tree@.mounts =~= want.mounts);
            assert(tree@.paths =~= want.paths);
            assert(tree@ =~= want);
        }
        r
    }

    /// Remove the link.
    pub fn unlink<FS: FileSystem>(&self, tree: &mut FileTree<FS>, name: &str) -> (r: FsResult<()>)
        requires
            old(tree).inv(),
            self.valid_in(old(tree)@),
        ensures
            final(tree).inv(),
            final(tree)@ == old(tree)@.with_fs_of(
                self.dentry(),
                FS::unlink_model(
                    old(tree)@.fs_of(self.dentry()),
                    old(tree)@.node_of(self.dentry()), name@,
                ).0,
            ),
            r == FS::unlink_model(
                old(tree)@.fs_of(self.dentry()),
                old(tree)@.node_of(self.dentry()), name@,
            ).1,
    {
        let mount = tree.dentries[self.dentry].mount;
        let node = tree.dentries[self.dentry].node;
        proof {
            assert(tree@.dentries[self.dentry as int].mount == mount);
        }
        let r = tree.mounts[mount].fs.unlink(node, name);
        proof {
            let want = old(tree)@.with_fs_of(
                self.dentry(),
                FS::unlink_model(
                    old(tree)@.fs_of(self.dentry()),
                    old(tree)@.node_of(self.dentry()), name@,
                ).0,
            );
            assert(tree@.mounts =~= want.mounts);
            assert(tree@.paths =~= want.paths);
            assert(tree@ =~= want);
        }
        r
    }

    /// Change the file's time information
    pub fn utimes<FS: FileSystem>(&self, tree: &mut FileTree<FS>, times: &[TimeSpec])
        -> (r: FsResult<()>)
        requires
            old(tree).inv(),
            self.valid_in(old(tree)@),
        ensures
            final(tree).inv(),
            final(tree)@ == old(tree)@.with_fs_of(
                self.dentry(),
                FS::utimes_model(
                    old(tree)@.fs_of(self.dentry()),
                    old(tree)@.node_of(self.dentry()), times@,
                ).0,
            ),
            r == FS::utimes_model(
                old(tree)@.fs_of(self.dentry()),
                old(tree)@.node_of(self.dentry()), times@,
            ).1,
    {
        let mount = tree.dentries[self.dentry].mount;
        let node = tree.dentries[self.dentry].node;
        proof {
            assert(tree@.dentries[self.dentry as int].mount == mount);
        }
        let r = tree.mounts[mount].fs.utimes(node, times);
        proof {
            let want = old(tree)@.with_fs_of(
                self.dentry(),
                FS::utimes_model(
                    old(tree)@.fs_of(self.dentry()),
                    old(tree)@.node_of(self.dentry()), times@,
                ).0,
            );
            assert(tree@.mounts =~= want.mounts);
            assert(tree@.paths =~= want.paths);
            assert(tree@ =~= want);
        }
        r
    }

    /// Get the metadata of the file.
    pub fn metadata<'a, FS: FileSystem>(&self, tree: &'a FileTree<FS>)
        -> (r: FsResult<Metadata<'a>>)
        requires
            tree.inv(),
            self.valid_in(tree@),
        ensures
            match r {
                Ok(data) => FS::metadata_model(tree@.fs_of(self.dentry()),
                    tree@.node_of(self.dentry()))
                    == Ok::<MetadataModel, Errno>(data@),
                Err(e) => FS::metadata_model(tree@.fs_of(self.dentry()),
                    tree@.node_of(self.dentry()))
                    == Err::<MetadataModel, Errno>(e),
            },
    {
        let mount = tree.dentries[self.dentry].mount;
        let node = tree.dentries[self.dentry].node;
        proof {
            assert(tree@.dentries[self.dentry as int].mount == mount);
        }
        tree.mounts[mount].fs.metadata(node)
    }

    /// Read data to buffer in the offset. The bytes read are laid over
    /// the start of the buffer; their number is returned.
    pub fn readat<FS: FileSystem>(&self, tree: &FileTree<FS>, offset: usize,
        buffer: &mut [u8]) -> (r:
        FsResult<usize>)
        requires
            tree.inv(),
            self.valid_in(tree@),
        ensures
            final(buffer)@.len() == old(buffer)@.len(),
            match r {
                Ok(n) => {
                    &&& FS::readat_model(
                        tree@.fs_of(self.dentry()),
                        tree@.node_of(self.dentry()),
                        offset,
                        old(buffer)@.len() as usize,
                    ) matches Ok(bytes)
                    &&& bytes.len() == n
                    &&& n <= old(buffer)@.len()
                    &&& final(buffer)@ == overlay(old(buffer)@, 0, bytes)
                },
                Err(e) => {
                    &&& FS::readat_model(
                        tree@.fs_of(self.dentry()),
                        tree@.node_of(self.dentry()),
                        offset,
                        old(buffer)@.len() as usize,
                    ) == Err::<Seq<u8>, Errno>(e)
                    &&& final(buffer)@ == old(buffer)@
                },
            },
    {
        let mount = tree.dentries[self.dentry].mount;
        let node = tree.dentries[self.dentry].node;
        proof {
            assert(tree@.dentries[self.dentry as int].mount == mount);
        }
        tree.mounts[mount].fs.readat(node, offset, buffer)
    }

    /// Get the all files(not includes files in the sub-directory) in the current directory
    pub fn read_dir<FS: FileSystem>(&self, tree: &FileTree<FS>) -> (r: FsResult<Vec<DirEntry>>)
        requires
            tree.inv(),
            self.valid_in(tree@),
        ensures
            match r {
                Ok(entries) => FS::read_dir_model(
                    tree@.fs_of(self.dentry()),
                    tree@.node_of(self.dentry()),
                ) == Ok::<Seq<DirEntryModel>, Errno>(entries_view(entries@)),
                Err(e) => FS::read_dir_model(
                    tree@.fs_of(self.dentry()),
                    tree@.node_of(self.dentry()),
                ) == Err::<Seq<DirEntryModel>, Errno>(e),
            },
    {
        let mount = tree.dentries[self.dentry].mount;
        let node = tree.dentries[self.dentry].node;
        proof {
            assert(tree@.dentries[self.dentry as int].mount == mount);
        }
        tree.mounts[mount].fs.read_dir(node)
    }

    /// Get the linked path of the link file.
    pub fn resolve_link<FS: FileSystem>(&self, tree: &FileTree<FS>) -> (r: FsResult<String>)
        requires
            tree.inv(),
            self.valid_in(tree@),
        ensures
            match r {
                Ok(path) => FS::resolve_link_model(
                    tree@.fs_of(self.dentry()),
                    tree@.node_of(self.dentry()),
                ) == Ok::<Seq<char>, Errno>(path@),
                Err(e) => FS::resolve_link_model(
                    tree@.fs_of(self.dentry()),
                    tree@.node_of(self.dentry()),
                ) == Err::<Seq<char>, Errno>(e),
            },
    {
        let mount = tree.dentries[self.dentry].mount;
        let node = tree.dentries[self.dentry].node;
        proof {
            assert(tree@.dentries[self.dentry as int].mount == mount);
        }
        tree.mounts[mount].fs.resolve_link(node)
    }

    /// Get the [Stat] information of the file or directory.
    pub fn stat<FS: FileSystem>(&self, tree: &FileTree<FS>, stat: &mut Stat) -> (r: FsResult<()>)
        requires
            tree.inv(),
            self.valid_in(tree@),
        ensures
            (*final(stat), r) == FS::stat_model(
                tree@.fs_of(self.dentry()),
                tree@.node_of(self.dentry()),
                *old(stat),
            ),
    {
        let mount = tree.dentries[self.dentry].mount;
        let node = tree.dentries[self.dentry].node;
        proof {
            assert(tree@.dentries[self.dentry as int].mount == mount);
        }
        tree.mounts[mount].fs.stat(node, stat)
    }

    /// get filesystem statistics
    pub fn statfs<FS: FileSystem>(&self, tree: &FileTree<FS>, statfs: &mut StatFS) -> (r: FsResult<
        (),
    >)
        requires
            tree.inv(),
            self.valid_in(tree@),
        ensures
            (*final(statfs), r) == FS::statfs_model(
                tree@.fs_of(self.dentry()),
                tree@.node_of(self.dentry()),
                *old(statfs),
            ),
    {
        let mount = tree.dentries[self.dentry].mount;
        let node = tree.dentries[self.dentry].node;
        proof {
            assert(tree@.dentries[self.dentry as int].mount == mount);
        }
        tree.mounts[mount].fs.statfs(node, statfs)
    }

    /// Poll a device or socket file.
    pub fn poll<FS: FileSystem>(&self, tree: &FileTree<FS>, events: PollEvent) -> (r: FsResult<
        PollEvent,
    >)
        requires
            tree.inv(),
            self.valid_in(tree@),
        ensures
            r == FS::poll_model(tree@.fs_of(self.dentry()), tree@.node_of(self.dentry()), events),
    {
        let mount = tree.dentries[self.dentry].mount;
        let node = tree.dentries[self.dentry].node;
        proof {
            assert(tree@.dentries[self.dentry as int].mount == mount);
        }
        tree.mounts[mount].fs.poll(node, events)
    }
}

} // verus!
