use vstd::prelude::*;

verus! {

/// The error kinds the library reports.
///
/// `EmptyFile` is returned when a handle is requested over zero bytes, since a
/// zero-length memory mapping is disallowed. `IoError` carries the text of a
/// read, write, open or rename failure. `InvalidRegex` carries the text of a
/// pattern-compilation failure. `ChannelClosed` reports that the consumer
/// dropped its receiver.
#[derive(Clone, Debug)]
pub enum CoreError {
    EmptyFile,
    IoError(String),
    InvalidRegex(String),
    ChannelClosed,
}

} // verus!
