use vstd::prelude::*;

use crate::LwskError;

verus! {

/// A non-blocking source/sink of byte buffers at the kernel boundary.
///
/// Implementations live outside the kernel (a UDP socket, a loopback queue).
/// The kernel relies only on the contracts below: neither operation may
/// change the length of the buffer it is handed, so channel buffers keep
/// their configured size for their whole lifetime.
pub trait IoDriver {
    /// Pull data from this I/O source, if any is present, into `buf`.
    ///
    /// If the driver has no new data, `buf` is left unchanged and the call
    /// succeeds. On a transport error the driver reports an OS-level code.
    fn pull(&mut self, buf: &mut Vec<u8>) -> (r: Result<(), LwskError>)
        ensures
            final(buf)@.len() == old(buf)@.len(),
            r matches Err(e) ==> e is DriverError,
    ;

    /// Push the full contents of `buf` to this I/O sink.
    fn push(&mut self, buf: &Vec<u8>) -> (r: Result<(), LwskError>)
        ensures
            r matches Err(e) ==> e is DriverError,
    ;
}

} // verus!
