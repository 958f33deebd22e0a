//! Transport capability the driver polls and writes through.

use vstd::prelude::*;

verus! {

/// A byte transport to the sensor, implemented by callers around their
/// concrete serial link. `read` must never block for arbitrarily long: it
/// hands back whatever is pending now, an empty chunk when nothing is
/// available (including on a local read timeout), and an error only for a
/// genuine I/O failure. `write_all` writes the whole sequence or reports an
/// error; it must not write partially without reporting.
pub trait UartInterface {
    type Error;

    fn write_all(&mut self, data: &[u8]) -> (r: Result<(), Self::Error>);

    fn read(&mut self, max: usize) -> (r: Result<Vec<u8>, Self::Error>)
        ensures
            r matches Ok(bytes) ==> bytes@.len() <= max,
    ;
}

} // verus!
