use vstd::prelude::*;
use std::collections::HashMap;

verus! {

broadcast use vstd::std_specs::hash::group_hash_axioms;

/// The console streams.
#[derive(Clone, Copy, PartialEq, Eq, Structural, Debug)]
pub enum StdIO {
    Stdin,
    Stdout,
    Stderr,
}

/// What a file descriptor stands for. A file is named by the handle that
/// the filesystem layer gave it.
#[derive(Clone, Copy, PartialEq, Eq, Structural, Debug)]
pub enum Resource {
    File(u32),
    Console(StdIO),
    Null,
}

/// Bytes that a UTF-8 encoding of `c` takes.
pub open spec fn utf8_len(c: char) -> nat {
    if (c as u32) < 0x80 {
        1
    } else if (c as u32) < 0x800 {
        2
    } else if (c as u32) < 0x10000 {
        3
    } else {
        4
    }
}

impl Resource {
    pub open spec fn read_spec(&self, buf_len: usize, key: Option<char>) -> Option<usize> {
        match *self {
            Resource::Console(StdIO::Stdin) => if buf_len < 4 {
                Some(0usize)
            } else {
                match key {
                    Some(c) => Some(utf8_len(c) as usize),
                    None => Some(0usize),
                }
            },
            Resource::Null => Some(0usize),
            _ => None,
        }
    }

    pub open spec fn write_spec(&self, len: usize) -> Option<usize> {
        match *self {
            Resource::Console(StdIO::Stdout) | Resource::Console(StdIO::Stderr) | Resource::Null => Some(len),
            _ => None,
        }
    }

    /// Bytes that a read into a buffer of `buf_len` bytes transfers, given
    /// the key that the console input buffer holds next (`None` when it is
    /// empty): a console read needs room for any character (four bytes) and
    /// takes one key. Only standard input and the null device are read here;
    /// a file is read through the filesystem layer.
    pub fn read(&self, buf_len: usize, key: Option<char>) -> (r: Option<usize>)
        ensures
            r == self.read_spec(buf_len, key),
    {
        match self {
            Resource::Console(StdIO::Stdin) => {
                if buf_len < 4 {
                    Some(0)
                } else {
                    match key {
                        Some(c) => {
                            let v = c as u32;
                            if v < 0x80 {
                                Some(1)
                            } else if v < 0x800 {
                                Some(2)
                            } else if v < 0x10000 {
                                Some(3)
                            } else {
                                Some(4)
                            }
                        },
                        None => Some(0),
                    }
                }
            },
            Resource::Null => Some(0),
            _ => None,
        }
    }

    /// Bytes that writing `len` bytes transfers: all of them to the console
    /// outputs and the null device; standard input and files take no writes.
    pub fn write(&self, len: usize) -> (r: Option<usize>)
        ensures
            r == self.write_spec(len),
    {
        match self {
            Resource::Console(StdIO::Stdout) | Resource::Console(StdIO::Stderr) | Resource::Null => {
                Some(len)
            },
            _ => None,
        }
    }
}

/// A process's open resources, by file descriptor.
pub struct ResourceSet {
    handles: HashMap<u8, Resource>,
}

/// The descriptor table of a fresh process: the three console streams.
pub open spec fn console_table() -> Map<u8, Resource> {
    map![
        0u8 => Resource::Console(StdIO::Stdin),
        1u8 => Resource::Console(StdIO::Stdout),
        2u8 => Resource::Console(StdIO::Stderr),
    ]
}

impl ResourceSet {
    pub closed spec fn view(&self) -> Map<u8, Resource> {
        self.handles@
    }

    /// A table with standard input, output and error on descriptors 0, 1, 2.
    pub fn new() -> (r: ResourceSet)
        ensures
            r.view() == console_table(),
    {
        let mut r = ResourceSet { handles: HashMap::new() };
        r.handles.insert(0, Resource::Console(StdIO::Stdin));
        r.handles.insert(1, Resource::Console(StdIO::Stdout));
        r.handles.insert(2, Resource::Console(StdIO::Stderr));
        assert(r.view() =~= console_table());
        r
    }

    /// A copy of the table.
    pub fn duplicate(&self) -> (r: ResourceSet)
        ensures
            r.view() == self.view(),
    {
        ResourceSet { handles: self.handles.clone() }
    }

    /// Binds `res` to the lowest descriptor that is not bound and returns
    /// it; every other binding stays. `None`, with nothing changed, when all
    /// 256 descriptors are bound.
    pub fn open(&mut self, res: Resource) -> (r: Option<u8>)
        ensures
            r.is_none() <==> forall|d: u8| #[trigger] old(self).view().contains_key(d),
            r.is_none() ==> final(self).view() == old(self).view(),
            r.is_some() ==> {
                let fd = r.unwrap();
                &&& !old(self).view().contains_key(fd)
                &&& forall|d: u8| d < fd ==> #[trigger] old(self).view().contains_key(d)
                &&& final(self).view() == old(self).view().insert(fd, res)
            },
    {
        let mut fd: u16 = 0;
        while fd < 256
            invariant
                fd <= 256,
                self.view() == old(self).view(),
                forall|d: u8| (d as int) < fd ==> #[trigger] old(self).view().contains_key(d),
            decreases 256 - fd,
        {
            if !self.handles.contains_key(&(fd as u8)) {
                self.handles.insert(fd as u8, res);
                return Some(fd as u8);
            }
            fd = fd + 1;
        }
        assert forall|d: u8| #[trigger] old(self).view().contains_key(d) by {
            assert((d as int) < fd);
        }
        None
    }

    /// Unbinds `fd`; false when it was not bound.
    pub fn close(&mut self, fd: u8) -> (ok: bool)
        ensures
            ok == old(self).view().contains_key(fd),
            final(self).view() == old(self).view().remove(fd),
    {
        let r = self.handles.remove(&fd);
        assert(self.view() =~= old(self).view().remove(fd));
        r.is_some()
    }

    /// The resource bound to `fd`.
    pub fn get(&self, fd: u8) -> (r: Option<Resource>)
        ensures
            r == (if self.view().contains_key(fd) {
                Some(self.view()[fd])
            } else {
                None
            }),
    {
        match self.handles.get(&fd) {
            Some(r) => Some(*r),
            None => None,
        }
    }

    /// Bytes that reading `fd` into a buffer of `buf_len` bytes transfers
    /// (see `Resource::read`), or -1 where `fd` is unbound or not read here.
    pub fn read(&self, fd: u8, buf_len: usize, key: Option<char>) -> (r: isize)
        ensures
            r == (if self.view().contains_key(fd) {
                match self.view()[fd].read_spec(buf_len, key) {
                    Some(n) => n as isize,
                    None => -1isize,
                }
            } else {
                -1isize
            }),
    {
        match self.get(fd) {
            Some(res) => match res.read(buf_len, key) {
                Some(n) => n as isize,
                None => -1,
            },
            None => -1,
        }
    }

    /// Bytes that writing `len` bytes to `fd` transfers (see
    /// `Resource::write`), or -1 where `fd` is unbound or takes no writes.
    pub fn write(&self, fd: u8, len: usize) -> (r: isize)
        requires
            len <= isize::MAX,
        ensures
            r == (if self.view().contains_key(fd) {
                match self.view()[fd].write_spec(len) {
                    Some(n) => n as isize,
                    None => -1isize,
                }
            } else {
                -1isize
            }),
    {
        match self.get(fd) {
            Some(res) => match res.write(len) {
                Some(n) => n as isize,
                None => -1,
            },
            None => -1,
        }
    }
}

} // verus!
