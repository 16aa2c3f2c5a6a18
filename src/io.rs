use vstd::prelude::*;
use vstd::string::StringSliceAdditionalSpecFns;
use crate::manager::ProcessManager;
use crate::syscall::{sys_read, sys_write, Syscall, SyscallArgs};

verus! {

/// A program's standard input.
pub struct Stdin;

/// A program's standard output.
pub struct Stdout;

/// A program's standard error.
pub struct Stderr;

/// What a console write of `len` bytes on descriptor `fd` returns to the
/// program: the count, or -1 (all ones) where `fd` takes no writes.
pub open spec fn console_write_result(m: ProcessManager, fd: u8, len: usize) -> usize {
    match m.current_fds() {
        Some(t) => if t.contains_key(fd) {
            match t[fd].write_spec(len) {
                Some(n) => n,
                None => usize::MAX,
            }
        } else {
            usize::MAX
        },
        None => usize::MAX,
    }
}

/// What one key does to a line being read.
#[derive(Clone, Copy, PartialEq, Eq, Structural, Debug)]
pub enum LineStep {
    /// Keep reading.
    More,
    /// The line is complete.
    Done,
}

/// The line after key `c`, what ends it, and what is echoed: a newline ends
/// the line (echoing it); ctrl-c ends it empty; ctrl-d ends it holding
/// only ctrl-d; backspace removes the last character (echoing a backspace)
/// where there is one; other control characters are ignored; anything
/// else is appended and echoed.
pub open spec fn line_edit(line: Seq<char>, c: char) -> (Seq<char>, LineStep, Option<char>) {
    if c == '\n' {
        (line, LineStep::Done, Some('\n'))
    } else if c == '\x03' {
        (Seq::<char>::empty(), LineStep::Done, None)
    } else if c == '\x04' {
        (seq!['\x04'], LineStep::Done, None)
    } else if c == '\x08' {
        if line.len() > 0 {
            (line.drop_last(), LineStep::More, Some('\x08'))
        } else {
            (line, LineStep::More, None)
        }
    } else if (c as u32) <= 0x1F {
        (line, LineStep::More, None)
    } else {
        (line.push(c), LineStep::More, Some(c))
    }
}

impl Stdin {
    fn new() -> Stdin {
        Stdin
    }

    /// Applies key `c` to the line being read (see `line_edit`); returns
    /// whether the line is complete and the character to echo.
    pub fn edit_line(line: &mut Vec<char>, c: char) -> (r: (LineStep, Option<char>))
        ensures
            final(line)@ == line_edit(old(line)@, c).0,
            r.0 == line_edit(old(line)@, c).1,
            r.1 == line_edit(old(line)@, c).2,
    {
        if c == '\n' {
            (LineStep::Done, Some('\n'))
        } else if c == '\x03' {
            line.clear();
            (LineStep::Done, None)
        } else if c == '\x04' {
            line.clear();
            line.push('\x04');
            proof {
                assert(line@ =~= seq!['\x04']);
            }
            (LineStep::Done, None)
        } else if c == '\x08' {
            if line.len() > 0 {
                line.pop();
                (LineStep::More, Some('\x08'))
            } else {
                (LineStep::More, None)
            }
        } else if (c as u32) <= 0x1F {
            (LineStep::More, None)
        } else {
            line.push(c);
            (LineStep::More, Some(c))
        }
    }

    pub fn test(&self) -> (r: String)
        ensures
            r@ == "test"@,
    {
        "test".to_owned()
    }

    /// Reads one character from descriptor 0 into a buffer of `buf_len`
    /// bytes: the pending key `key`, where the read transfers any byte.
    pub fn read_char_with_buf(&self, m: &ProcessManager, buf_len: usize, key: Option<char>) -> (r: Option<char>)
        requires
            m.wf(),
        ensures
            ({
                let n = match m.current_fds() {
                    Some(t) => if t.contains_key(0) {
                        match t[0].read_spec(buf_len, key) {
                            Some(n) => n,
                            None => usize::MAX,
                        }
                    } else {
                        usize::MAX
                    },
                    None => usize::MAX,
                };
                r == (if n != usize::MAX && n > 0 { key } else { None })
            }),
    {
        let args = SyscallArgs { syscall: Syscall::Read, arg0: 0, arg1: 0, arg2: buf_len };
        let n = sys_read(m, &args, key);
        if n != usize::MAX && n > 0 {
            key
        } else {
            None
        }
    }
}

impl Stdout {
    fn new() -> Stdout {
        Stdout
    }

    /// Writes `s` to descriptor 1; returns what the system call returns.
    pub fn write(&self, m: &ProcessManager, s: &str) -> (r: usize)
        requires
            m.wf(),
            s.spec_bytes().len() <= isize::MAX,
        ensures
            r == console_write_result(*m, 1, s.spec_bytes().len() as usize),
    {
        let args = SyscallArgs { syscall: Syscall::Write, arg0: 1, arg1: 0, arg2: s.len() };
        sys_write(m, &args)
    }
}

impl Stderr {
    fn new() -> Stderr {
        Stderr
    }

    /// Writes `s` to descriptor 2; returns what the system call returns.
    pub fn write(&self, m: &ProcessManager, s: &str) -> (r: usize)
        requires
            m.wf(),
            s.spec_bytes().len() <= isize::MAX,
        ensures
            r == console_write_result(*m, 2, s.spec_bytes().len() as usize),
    {
        let args = SyscallArgs { syscall: Syscall::Write, arg0: 2, arg1: 0, arg2: s.len() };
        sys_write(m, &args)
    }
}

pub fn stdin() -> Stdin {
    Stdin::new()
}

pub fn stdout() -> Stdout {
    Stdout::new()
}

pub fn stderr() -> Stderr {
    Stderr::new()
}

/// How a file is opened.
#[derive(Clone, Copy, PartialEq, Eq, Structural, Debug)]
pub enum FileMode {
    ReadOnly,
    ReadWriteAppend,
    ReadWriteTruncate,
    ReadWriteCreate,
    ReadWriteCreateOrTruncate,
    ReadWriteCreateOrAppend,
}

/// Where a seek counts from.
#[derive(Clone, Copy, PartialEq, Eq, Structural, Debug)]
pub enum SeekFrom {
    Start(usize),
    End(isize),
    Current(isize),
}

} // verus!
