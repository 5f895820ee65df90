//! A remote file locker: the wire protocol between a client and the server
//! that owns a directory tree, and the rules by which the server turns a
//! request into work on that tree.

use vstd::prelude::*;

pub mod cbor;
pub mod client;
pub mod codec;
pub mod executor;
pub mod frame;
pub mod message;
pub mod path;
pub mod root;
pub mod session;
pub mod unit;
pub mod wire;

verus! {

/// The byte that ends every frame on the wire.
pub const LAST: u8 = 0x0A;

/// The port on which the server listens.
pub const PORT: u16 = 7720;

/// Why a request could not be served.
#[derive(Clone, Copy, Debug, PartialEq, Eq, Structural)]
pub enum Failure {
    /// The bytes received are not one complete frame of a known message.
    MalformedFrame,
    /// A path of the request does not stay below the root.
    OutsideRoot,
    /// A call into the file system failed.
    IoFailure,
    /// The transcoder did not start, or reported a failure.
    ProcessFailure,
}

} // verus!
