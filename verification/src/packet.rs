use vstd::prelude::*;

verus! {

/// The transport address of a remote peer: an IP address (IPv4 as its
/// big-endian `u32`, IPv6 as its big-endian `u128` with flow label and scope)
/// and a port.
#[derive(Clone, Copy, Debug, PartialEq, Eq, Structural)]
#[allow(inconsistent_fields)]
pub enum PeerAddr {
    V4 { ip: u32, port: u16 },
    V6 { ip: u128, port: u16, flowinfo: u32, scope_id: u32 },
}

/// A message on a data channel, with the address of the peer at its other end.
#[derive(Clone, Debug)]
pub struct RtcPacket {
    pub is_string: bool,
    pub data: Vec<u8>,
    pub remote_addr: PeerAddr,
}

impl RtcPacket {
    /// A copy of the payload, which the caller owns.
    pub fn copy_data(&self) -> (copy: Vec<u8>)
        ensures
            copy@ == self.data@,
    {
        let mut copy: Vec<u8> = Vec::with_capacity(self.data.len());
        let mut i: usize = 0;
        while i < self.data.len()
            invariant
                i <= self.data@.len(),
                copy@ == self.data@.subrange(0, i as int),
            decreases self.data@.len() - i,
        {
            copy.push(self.data[i]);
            i = i + 1;
        }
        proof {
            assert(self.data@.subrange(0, self.data@.len() as int) =~= self.data@);
        }
        copy
    }
}

} // verus!
