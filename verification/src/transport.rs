//! What a byte-stream transport's answers mean.
use vstd::prelude::*;

use crate::error::{Error, ErrorKind, IoError, Result};

verus! {

/// Whether a result is a transport failure of this kind with this description.
pub open spec fn is_io<T>(r: Result<T>, kind: ErrorKind, message: Seq<char>) -> bool {
    r matches Err(Error::Io(e)) && e.spec_kind() == kind && e.spec_message() == message
}

/// The failure of a transport that accepts nothing.
pub(crate) fn write_zero() -> (r: IoError)
    ensures
        r.spec_kind() == ErrorKind::WriteZero,
        r.spec_message() == "write zero"@,
{
    IoError::new(ErrorKind::WriteZero, "write zero")
}

/// The failure of a transport that claims to have accepted more than it was given.
pub(crate) fn oversized_write() -> (r: IoError)
    ensures
        r.spec_kind() == ErrorKind::InvalidData,
        r.spec_message() == "transport reported an oversized write"@,
{
    IoError::new(ErrorKind::InvalidData, "transport reported an oversized write")
}

/// How many more bytes of a buffer are written, after a blocking transport gave this
/// answer to a write: an interrupted call is made again.
pub fn written(outcome: core::result::Result<usize, IoError>) -> (r: core::result::Result<
    usize,
    IoError,
>)
    ensures
        match outcome {
            Ok(n) => if n == 0 {
                r matches Err(e) && e.spec_kind() == ErrorKind::WriteZero && e.spec_message()
                    == "write zero"@
            } else {
                r == Ok::<usize, IoError>(n)
            },
            Err(e) => r == (if e.spec_kind() == ErrorKind::Interrupted {
                Ok(0usize)
            } else {
                Err(e)
            }),
        },
{
    match outcome {
        Ok(0) => Err(write_zero()),
        Ok(written) => Ok(written),
        Err(error) => match error.kind() {
            ErrorKind::Interrupted => Ok(0),
            _ => Err(error),
        },
    }
}

} // verus!
