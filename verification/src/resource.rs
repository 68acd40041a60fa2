//! The per-family table of open resources: the three standard console
//! streams, opened files, and the null device.
//!
//! The storage stack is a collaborator: it resolves a path to a file's
//! bytes, and the kernel only reads through the handle it was given.

use vstd::prelude::*;
use std::collections::BTreeMap;
use crate::input::{InputBuffer, input_contents, try_pop_key};

verus! {

/// The three console streams.
#[derive(Clone, Copy, Debug, PartialEq, Eq, Structural)]
pub enum StdIO {
    /// Keyboard input.
    Stdin,
    /// Ordinary output.
    Stdout,
    /// Diagnostic output.
    Stderr,
}

/// An opened file: its bytes as the storage stack handed them over, and
/// the read cursor.
pub struct FileHandle {
    /// The file's contents.
    pub data: Vec<u8>,
    /// The current offset of the cursor.
    pub offset: usize,
}

/// One entry of the resource table.
pub enum Resource {
    /// A console stream.
    Console(StdIO),
    /// An opened file.
    File(FileHandle),
    /// The null device.
    Null,
}

/// What one read does: how the resource, the buffer and the pending
/// keystrokes move, and what comes back.
pub open spec fn spec_read(
    res0: Resource,
    res1: Resource,
    buf0: Seq<u8>,
    buf1: Seq<u8>,
    in0: Seq<u8>,
    in1: Seq<u8>,
    r: Option<usize>,
) -> bool {
    match res0 {
        Resource::File(f) => {
            let n = if f.data@.len() - f.offset < buf0.len() {
                f.data@.len() - f.offset
            } else {
                buf0.len() as int
            };
            let n = if n < 0 {
                0
            } else {
                n
            };
            &&& r == Some(n as usize)
            &&& res1 matches Resource::File(g) && g.data == f.data && g.offset == (if f.offset
                <= f.data@.len() {
                f.offset + n
            } else {
                f.offset as int
            })
            &&& forall|i: int| 0 <= i < n ==> buf1[i] == f.data@[f.offset + i]
            &&& in1 == in0
        },
        Resource::Console(stdio) => match stdio {
            StdIO::Stdin => {
                &&& in0.len() > 0 && buf0.len() > 0 ==> r == Some(1usize) && buf1[0] == in0[0]
                    && in1 == in0.drop_first()
                &&& in0.len() > 0 && buf0.len() == 0 ==> r == Some(1usize) && in1
                    == in0.drop_first()
                &&& in0.len() == 0 ==> r == Some(0usize) && in1 == in0
            },
            _ => r is None && in1 == in0,
        },
        Resource::Null => r == Some(0usize) && in1 == in0,
    }
}

impl Resource {
    /// Read from the resource into `buf`, whose length bounds the read.
    /// A file hands out its bytes from the cursor on; standard input
    /// yields at most one pending keystroke; writing streams refuse.
    /// Returns how many bytes were placed at the front of `buf`.
    pub fn read(&mut self, buf: &mut Vec<u8>, input: &mut InputBuffer) -> (r: Option<usize>)
        ensures
            final(buf)@.len() == old(buf)@.len(),
            spec_read(
                *old(self),
                *final(self),
                old(buf)@,
                final(buf)@,
                input_contents(*old(input)),
                input_contents(*final(input)),
                r,
            ),
    {
        match self {
            Resource::File(file) => {
                let len = buf.len();
                let dlen = file.data.len();
                let avail = if file.offset <= dlen {
                    dlen - file.offset
                } else {
                    0
                };
                let n = if avail < len {
                    avail
                } else {
                    len
                };
                let mut i: usize = 0;
                while i < n
                    invariant
                        n <= old(buf)@.len(),
                        file.data@.len() == dlen,
                        n > 0 ==> file.offset + n <= dlen,
                        i <= n,
                        buf@.len() == old(buf)@.len(),
                        forall|j: int| 0 <= j < i ==> buf@[j] == file.data@[file.offset + j],
                    decreases n - i,
                {
                    let b = file.data[file.offset + i];
                    buf.set(i, b);
                    i = i + 1;
                }
                if file.offset <= file.data.len() {
                    file.offset = file.offset + n;
                }
                Some(n)
            },
            Resource::Console(stdio) => match stdio {
                StdIO::Stdin => {
                    if buf.len() == 0 {
                        match try_pop_key(input) {
                            Some(_) => Some(1),
                            None => Some(0),
                        }
                    } else {
                        match try_pop_key(input) {
                            Some(key) => {
                                buf.set(0, key);
                                Some(1)
                            },
                            None => Some(0),
                        }
                    }
                },
                _ => None,
            },
            Resource::Null => Some(0),
        }
    }

    /// Write `buf` to the resource.  The console streams take everything
    /// (the surrounding binary performs the actual printing); reading
    /// streams refuse; a file takes nothing; the null device swallows
    /// everything.
    pub fn write(&mut self, buf: &Vec<u8>) -> (r: Option<usize>)
        ensures
            match *old(self) {
                Resource::File(_) => r == Some(0usize),
                Resource::Console(stdio) => match stdio {
                    StdIO::Stdin => r is None,
                    _ => r == Some(buf@.len() as usize),
                },
                Resource::Null => r == Some(buf@.len() as usize),
            },
    {
        match self {
            Resource::File(_) => Some(0),
            Resource::Console(stdio) => match stdio {
                StdIO::Stdin => None,
                _ => Some(buf.len()),
            },
            Resource::Null => Some(buf.len()),
        }
    }
}

/// The open resources of a process family, keyed by descriptor.
pub struct ResourceSet {
    /// The open resources.
    pub handles: BTreeMap<u8, Resource>,
}

impl ResourceSet {
    /// The table every process starts with: the three console streams on
    /// descriptors 0, 1 and 2.
    pub fn new() -> (r: ResourceSet)
        ensures
            r.handles@.contains_key(0) && r.handles@[0] matches Resource::Console(StdIO::Stdin),
            r.handles@.contains_key(1) && r.handles@[1] matches Resource::Console(StdIO::Stdout),
            r.handles@.contains_key(2) && r.handles@[2] matches Resource::Console(StdIO::Stderr),
            r.handles@.dom().len() == 3,
    {
        let mut handles: BTreeMap<u8, Resource> = BTreeMap::new();
        handles.insert(0, Resource::Console(StdIO::Stdin));
        handles.insert(1, Resource::Console(StdIO::Stdout));
        handles.insert(2, Resource::Console(StdIO::Stderr));
        proof {
            assert(handles@.dom() =~= set![0u8, 1u8, 2u8]);
            assert(handles@.dom().len() == 3) by {
                assert(set![0u8, 1u8, 2u8] =~= Set::empty().insert(0u8).insert(1u8).insert(2u8));
            }
        }
        ResourceSet { handles }
    }

    /// Open a resource on the next descriptor, taken as the table's
    /// size.
    pub fn open(&mut self, res: Resource) -> (r: u8)
        requires
            old(self).handles@.dom().len() < 256,
            old(self).handles@.dom().finite(),
        ensures
            r == old(self).handles@.dom().len(),
            final(self).handles@ == old(self).handles@.insert(r, res),
    {
        let fd = self.handles.len() as u8;
        self.handles.insert(fd, res);
        fd
    }

    /// Close a descriptor, reporting whether it was open.
    pub fn close(&mut self, fd: u8) -> (r: bool)
        ensures
            r == old(self).handles@.contains_key(fd),
            final(self).handles@ == old(self).handles@.remove(fd),
    {
        self.handles.remove(&fd).is_some()
    }

    /// Read from the resource on `fd`; an unknown descriptor or an
    /// unreadable resource answers `-1`.
    pub fn read(&mut self, fd: u8, buf: &mut Vec<u8>, input: &mut InputBuffer) -> (r: isize)
        ensures
            final(buf)@.len() == old(buf)@.len(),
            !old(self).handles@.contains_key(fd) ==> r == -1
                && final(self).handles@ == old(self).handles@ && input_contents(*final(input))
                == input_contents(*old(input)) && final(buf)@ == old(buf)@,
            old(self).handles@.contains_key(fd) ==> {
                &&& final(self).handles@ == old(self).handles@.insert(
                    fd,
                    final(self).handles@[fd],
                )
                &&& exists|rop: Option<usize>|
                    #[trigger] spec_read(
                        old(self).handles@[fd],
                        final(self).handles@[fd],
                        old(buf)@,
                        final(buf)@,
                        input_contents(*old(input)),
                        input_contents(*final(input)),
                        rop,
                    ) && r == (match rop {
                        Some(n) => if n <= isize::MAX as usize {
                            n as isize
                        } else {
                            -1isize
                        },
                        None => -1isize,
                    })
            },
    {
        match self.handles.remove(&fd) {
            Some(mut res) => {
                let r = res.read(buf, input);
                self.handles.insert(fd, res);
                proof {
                    assert(self.handles@ =~= old(self).handles@.insert(fd, self.handles@[fd]));
                }
                match r {
                    Some(n) => {
                        if n <= isize::MAX as usize {
                            n as isize
                        } else {
                            -1
                        }
                    },
                    None => -1,
                }
            },
            None => -1,
        }
    }

    /// Write to the resource on `fd`; an unknown descriptor or an
    /// unwritable resource answers `-1`.
    pub fn write(&mut self, fd: u8, buf: &Vec<u8>) -> (r: isize)
        ensures
            !old(self).handles@.contains_key(fd) ==> r == -1 && final(self).handles@ == old(
                self,
            ).handles@,
            old(self).handles@.contains_key(fd) && (old(self).handles@[fd] matches Resource::Console(
                StdIO::Stdout,
            )) && buf@.len() <= isize::MAX ==> r == buf@.len(),
    {
        match self.handles.remove(&fd) {
            Some(mut res) => {
                let r = res.write(buf);
                self.handles.insert(fd, res);
                match r {
                    Some(n) => {
                        if n <= isize::MAX as usize {
                            n as isize
                        } else {
                            -1
                        }
                    },
                    None => -1,
                }
            },
            None => -1,
        }
    }
}

} // verus!
