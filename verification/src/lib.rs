use vstd::prelude::*;

pub mod bytes;
pub mod cursor;
pub mod header;
pub mod name;
pub mod question;
pub mod record;
pub mod packet;
pub mod cache;
pub mod resolver;

verus! {

/// Record type code for an IPv4 address record.
pub const RECORD_TYPE_A: u16 = 1;
/// Record type code for a nameserver record.
pub const RECORD_TYPE_NS: u16 = 2;
/// Class code for the Internet class.
pub const CLASS_IN: u16 = 1;

/// An IPv4 address held as its four octets.
#[derive(Clone, Copy, Debug, PartialEq, Eq, Structural, Hash)]
pub struct IpAddress {
    pub o0: u8,
    pub o1: u8,
    pub o2: u8,
    pub o3: u8,
}

impl IpAddress {
    pub fn new(o0: u8, o1: u8, o2: u8, o3: u8) -> (r: IpAddress)
        ensures
            r == (IpAddress { o0, o1, o2, o3 }),
    {
        IpAddress { o0, o1, o2, o3 }
    }
}

/// How a resolution or a decode can fail.
#[derive(Clone, Copy, Debug, PartialEq, Eq, Structural)]
pub enum DnsError {
    /// The buffer ended before a declared field or count was read.
    MalformedMessage,
    /// A record's type tag and its actual payload disagree.
    UnexpectedRecordShape,
    /// A socket operation failed.
    TransportFailure,
    /// A response carried no matching answer, no address glue and no delegation.
    NoUsableAnswer,
    /// A delegation chain nested deeper than the resolver allows.
    DepthExceeded,
}

} // verus!
