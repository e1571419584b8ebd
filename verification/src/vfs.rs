//! The virtual file system a contract sees: a table of file descriptors.
//!
//! Descriptors 0 to 3 are stdin (a file holding the VM's input), stdout,
//! stderr and the root directory. New descriptors come from the list of
//! freed ones first, and otherwise count up from the largest ever used.

use vstd::prelude::*;

use std::collections::BTreeMap;

verus! {

/// The bytes of an open file and the position reads continue from.
#[derive(Debug)]
pub struct FileContents {
    pub contents: Vec<u8>,
    pub pos: usize,
}

/// What a descriptor refers to.
#[derive(Debug)]
pub enum FileDescriptor {
    Stdin,
    Stdout,
    Stderr,
    File(FileContents),
    Dir { path: Vec<String> },
}

/// The descriptor table.
pub struct VFS {
    pub fds: BTreeMap<u32, FileDescriptor>,
    pub free_descriptors: Vec<u32>,
    pub next_free_descriptor: u32,
}

impl VFS {
    /// The table's invariant: every descriptor in use is at most the
    /// largest handed out, and the free list holds distinct descriptors,
    /// none in use, none past the largest handed out.
    pub open spec fn wf(&self) -> bool {
        &&& forall|k: u32| #[trigger] self.fds@.contains_key(k) ==> k <= self.next_free_descriptor
        &&& forall|i: int|
            0 <= i < self.free_descriptors@.len() ==> !self.fds@.contains_key(
                #[trigger] self.free_descriptors@[i],
            ) && self.free_descriptors@[i] <= self.next_free_descriptor
        &&& self.free_descriptors@.no_duplicates()
    }

    /// The standard descriptors, stdin holding `stdin`.
    pub fn new(stdin: Vec<u8>) -> (r: Self)
        ensures
            r.wf(),
            r.fds@.dom() == set![0u32, 1u32, 2u32, 3u32],
            r.fds@[0] matches FileDescriptor::File(f) && f.contents@ == stdin@ && f.pos == 0,
            r.fds@[1] is Stdout,
            r.fds@[2] is Stderr,
            r.fds@[3] matches FileDescriptor::Dir { path } && path@.len() == 0,
            r.free_descriptors@.len() == 0,
            r.next_free_descriptor == 3,
    {
        broadcast use vstd::std_specs::btree::group_btree_axioms;
        let mut fds: BTreeMap<u32, FileDescriptor> = BTreeMap::new();
        fds.insert(0, FileDescriptor::File(FileContents { contents: stdin, pos: 0 }));
        fds.insert(1, FileDescriptor::Stdout);
        fds.insert(2, FileDescriptor::Stderr);
        fds.insert(3, FileDescriptor::Dir { path: Vec::new() });
        assert(fds@.dom() =~= set![0u32, 1u32, 2u32, 3u32]);
        VFS { fds, next_free_descriptor: 3, free_descriptors: Vec::new() }
    }

    /// A vacant descriptor: the last one freed, else one past the largest
    /// handed out.
    pub fn alloc_fd(&mut self) -> (r: u32)
        requires
            old(self).wf(),
            old(self).free_descriptors@.len() > 0 || old(self).next_free_descriptor < u32::MAX,
        ensures
            final(self).wf(),
            !final(self).fds@.contains_key(r),
            final(self).fds@ == old(self).fds@,
            old(self).free_descriptors@.len() > 0 ==> r == old(self).free_descriptors@.last()
                && final(self).free_descriptors@ == old(self).free_descriptors@.drop_last()
                && final(self).next_free_descriptor == old(self).next_free_descriptor,
            old(self).free_descriptors@.len() == 0 ==> r == old(self).next_free_descriptor + 1
                && final(self).next_free_descriptor == r && final(self).free_descriptors@.len() == 0,
    {
        match self.free_descriptors.pop() {
            Some(v) => {
                proof {
                    let f = old(self).free_descriptors@;
                    assert(f.last() == f[f.len() - 1]);
                    assert forall|i: int| 0 <= i < self.free_descriptors@.len() implies self.free_descriptors@[i] != v by {
                        assert(f[i] == self.free_descriptors@[i]);
                    }
                }
                v
            },
            None => {
                self.next_free_descriptor = self.next_free_descriptor + 1;
                self.next_free_descriptor
            },
        }
    }

    /// Returns a descriptor to the free list; it must have been removed from
    /// the table, and not be free already.
    pub fn free_fd(&mut self, fd: u32)
        requires
            old(self).wf(),
            !old(self).fds@.contains_key(fd),
            !old(self).free_descriptors@.contains(fd),
            fd <= old(self).next_free_descriptor,
        ensures
            final(self).wf(),
            final(self).fds@ == old(self).fds@,
            final(self).free_descriptors@ == old(self).free_descriptors@.push(fd),
            final(self).next_free_descriptor == old(self).next_free_descriptor,
    {
        self.free_descriptors.push(fd);
        proof {
            let f = old(self).free_descriptors@;
            let g = self.free_descriptors@;
            assert forall|i: int, j: int| 0 <= i < g.len() && 0 <= j < g.len() && i != j implies g[i] != g[j] by {
                if i < f.len() && j < f.len() {
                    assert(g[i] == f[i] && g[j] == f[j]);
                } else if i < f.len() {
                    assert(g[i] == f[i]);
                    assert(g[j] == fd);
                    if f[i] == fd {
                        assert(f.contains(fd));
                    }
                } else {
                    assert(g[j] == f[j]);
                    assert(g[i] == fd);
                    if f[j] == fd {
                        assert(f.contains(fd));
                    }
                }
            }
        }
    }

    /// Removes a descriptor from the table and frees it; `None` when it was
    /// not in use.
    pub fn pop_fd(&mut self, fd: u32) -> (r: Option<FileDescriptor>)
        requires
            old(self).wf(),
        ensures
            final(self).wf(),
            old(self).fds@.contains_key(fd) ==> r == Some(old(self).fds@[fd]) && final(self).fds@
                == old(self).fds@.remove(fd) && final(self).free_descriptors@ == old(
                self,
            ).free_descriptors@.push(fd),
            !old(self).fds@.contains_key(fd) ==> r is None && final(self).fds@ == old(self).fds@
                && final(self).free_descriptors@ == old(self).free_descriptors@,
            final(self).next_free_descriptor == old(self).next_free_descriptor,
    {
        broadcast use vstd::std_specs::btree::group_btree_axioms;
        match self.fds.remove(&fd) {
            Some(v) => {
                proof {
                    assert(!old(self).free_descriptors@.contains(fd)) by {
                        if old(self).free_descriptors@.contains(fd) {
                            let i = choose|i: int| 0 <= i < old(self).free_descriptors@.len() && old(self).free_descriptors@[i] == fd;
                            assert(!old(self).fds@.contains_key(old(self).free_descriptors@[i]));
                        }
                    }
                }
                self.free_fd(fd);
                Some(v)
            },
            None => None,
        }
    }

    /// Puts a file under a vacant descriptor, which it returns.
    pub fn place_content(&mut self, value: FileContents) -> (r: u32)
        requires
            old(self).wf(),
            old(self).free_descriptors@.len() > 0 || old(self).next_free_descriptor < u32::MAX,
        ensures
            final(self).wf(),
            !old(self).fds@.contains_key(r),
            final(self).fds@ == old(self).fds@.insert(r, FileDescriptor::File(value)),
    {
        broadcast use vstd::std_specs::btree::group_btree_axioms;
        let fd = self.alloc_fd();
        self.fds.insert(fd, FileDescriptor::File(value));
        proof {
            assert forall|i: int| 0 <= i < self.free_descriptors@.len() implies !self.fds@.contains_key(
                #[trigger] self.free_descriptors@[i],
            ) && self.free_descriptors@[i] <= self.next_free_descriptor by {
                if old(self).free_descriptors@.len() > 0 {
                    let f = old(self).free_descriptors@;
                    assert(self.free_descriptors@[i] == f[i]);
                    assert(f[i] != f[f.len() - 1]);
                }
            }
        }
        fd
    }
}

/// Files placed one after the other get different descriptors: the table
/// after the first placement holds the first descriptor, and the second
/// placement only hands out a descriptor the table does not hold.
pub proof fn placed_descriptors_differ(
    fds1: Map<u32, FileDescriptor>,
    fd1: u32,
    file1: FileDescriptor,
    fds2: Map<u32, FileDescriptor>,
    fd2: u32,
)
    requires
        fds2 == fds1.insert(fd1, file1),
        !fds2.contains_key(fd2),
    ensures
        fd1 != fd2,
{
    assert(fds2.contains_key(fd1));
}

} // verus!
