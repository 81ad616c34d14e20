//! The plain values and decisions of the pseudo-terminal helper; the calls
//! into the operating system stand outside the library.
use vstd::prelude::*;

verus! {

/// A failure of the pseudo-terminal helper, with the system's message.
#[derive(Debug, Clone)]
pub enum TerminalError {
    PtmxOpenError(String),
    PtySetupError(String),
    ForkError(String),
    AllocationError,
    ChdirError(String),
    ExecError(String),
    IoError(String),
}

/// A process attached to a pseudo-terminal.
#[derive(Debug, Clone, Copy, PartialEq, Eq, Structural)]
pub struct PtyProcess {
    /// The descriptor of the terminal's controlling side.
    pub ptm_fd: i32,
    /// The process id.
    pub pid: i32,
}

/// The window size the terminal is told: rows, columns, and the size in
/// pixels, each kept to its low 16 bits.
pub fn window_size(rows: u32, cols: u32, cell_width: u32, cell_height: u32) -> (r: (
    u16,
    u16,
    u16,
    u16,
))
    requires
        cols * cell_width <= u32::MAX,
        rows * cell_height <= u32::MAX,
    ensures
        r.0 == rows % 65536,
        r.1 == cols % 65536,
        r.2 == (cols * cell_width) % 65536,
        r.3 == (rows * cell_height) % 65536,
{
    let xp = cols * cell_width;
    let yp = rows * cell_height;
    ((rows % 65536) as u16, (cols % 65536) as u16, (xp % 65536) as u16, (yp % 65536) as u16)
}

/// The code reported for a waited-for process: its exit status, the
/// negated signal that ended it, or 0.
pub fn wait_status_code(exited: bool, exit_status: i32, signaled: bool, signal: i32) -> (r: i32)
    requires
        signal > i32::MIN,
    ensures
        exited ==> r == exit_status,
        !exited && signaled ==> r == -signal,
        !exited && !signaled ==> r == 0,
{
    if exited {
        exit_status
    } else if signaled {
        -signal
    } else {
        0
    }
}

/// What the write loop does after one `write` call.
#[derive(Debug, Clone, Copy, PartialEq, Eq, Structural)]
pub enum WriteStep {
    /// Write the rest, from this offset.
    Continue(usize),
    /// Interrupted by a signal: try again.
    Retry,
    /// Failed: report the error.
    Fail,
    /// Done, or nothing more is taken: report this count.
    Done(usize),
}

/// The next step of writing `len` bytes, `written` of them so far, after
/// a `write` call returned `n`.
pub fn write_step(written: usize, len: usize, n: isize, interrupted: bool) -> (r: WriteStep)
    requires
        written < len,
        n >= 0 ==> n as int <= len - written,
    ensures
        n < 0 && interrupted ==> r == WriteStep::Retry,
        n < 0 && !interrupted ==> r == WriteStep::Fail,
        n == 0 ==> r == WriteStep::Done(written),
        n > 0 && written + n < len ==> r == WriteStep::Continue((written + n) as usize),
        n > 0 && written + n == len ==> r == WriteStep::Done(len),
{
    if n < 0 {
        if interrupted {
            WriteStep::Retry
        } else {
            WriteStep::Fail
        }
    } else if n == 0 {
        WriteStep::Done(written)
    } else {
        let next = written + n as usize;
        if next < len {
            WriteStep::Continue(next)
        } else {
            WriteStep::Done(next)
        }
    }
}

} // verus!
