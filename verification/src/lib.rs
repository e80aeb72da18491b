pub mod block;
pub mod codec;
pub mod fx;
pub mod jitter;
pub mod relay;
pub mod session;

use vstd::prelude::*;

verus! {

/// Number of audio samples in one transmitted block.
pub const TX_BUFFER_SIZE: usize = 256;

/// Upper bound on the size of an encoded packet, used to size receive buffers.
pub const MAX_PACKET_SIZE: usize = 4 * TX_BUFFER_SIZE + 8;

#[verifier::external_type_specification]
#[verifier::external_body]
pub struct ExIoError(std::io::Error);

/// Whether an I/O error is the would-block condition of a non-blocking
/// socket operation; a function of the error value alone.
pub uninterp spec fn would_block(e: &std::io::Error) -> bool;

/// Relies on `std::io::Error::kind`: recognises the would-block condition,
/// which depends on the error value alone.
#[verifier::external_body]
fn is_would_block(e: &std::io::Error) -> (r: bool)
    ensures
        r == would_block(e),
{
    e.kind() == std::io::ErrorKind::WouldBlock
}

/// Collapses the success value of a non-blocking I/O result and forgives a
/// would-block condition, which the session treats as "nothing available";
/// any other error is handed back unchanged, and is fatal to the caller.
pub fn map_would_block<T>(result: std::io::Result<T>) -> (r: std::io::Result<()>)
    ensures
        result is Ok ==> r is Ok,
        result matches Err(e) ==> (would_block(&e) ==> r is Ok),
        result matches Err(e) ==> (!would_block(&e) ==> (r matches Err(e2) && e2 == e)),
        r matches Err(e) ==> (result matches Err(e2) && e == e2),
{
    match result {
        Ok(_) => Ok(()),
        Err(e) => {
            if is_would_block(&e) {
                Ok(())
            } else {
                Err(e)
            }
        },
    }
}

} // verus!
