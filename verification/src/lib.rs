use vstd::prelude::*;

pub mod blueprint;
pub mod cli;
pub mod io;
pub mod kernel;
pub mod schedule;
pub mod wasm;

verus! {

/// Errors of the separation kernel: configuration, sandbox, and driver faults.
#[derive(Debug)]
pub enum LwskError {
    /// An I/O driver could not be created.
    IoChannelCreationError,
    /// A sandbox module failed to open, parse, link, start, or expose its entry.
    WasmLoadError,
    /// A named global exists but is not a 32-bit integer.
    UnexpectedWasmType,
    /// A named global is missing from the sandbox module.
    GlobalDoesNotExist,
    /// A schedule was declared with no entries.
    EmptySchedule,
    /// The sandbox module exports no linear memory named `memory`.
    NoSuchWasmMemory,
    /// A memory window is narrower than requested.
    BufferTooSmall { expected: usize, got: usize },
    /// A transport-level error, carrying an OS-level code.
    DriverError(i64),
    /// A schedule entry names a function that does not exist.
    InvalidFunctionIdx(usize),
    /// A reference names a channel that does not exist.
    InvalidChannelIdx(usize),
    /// A schedule entry names an I/O driver that does not exist.
    InvalidIoIdx(usize),
}

pub type LwskResult<T> = Result<T, LwskError>;

} // verus!
