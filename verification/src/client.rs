use vstd::prelude::*;

verus! {

/// The largest message read from a data channel at once.
pub const MESSAGE_SIZE: usize = 1500;

/// The capacity of the queues between the client socket and its user.
pub const CLIENT_CHANNEL_SIZE: usize = 8;

/// The client end of a WebRTC data-channel socket; connecting is done by
/// the application around this library.
pub struct Socket;

/// What the client's read loop does after a read from the data channel.
#[derive(Debug)]
pub enum ReadStep {
    /// Hand this message to the client.
    Forward(Vec<u8>),
    /// The channel closed: end the loop without error.
    Finish,
}

/// One turn of the client's read loop: a read of `length` bytes into
/// `buffer` forwards exactly those bytes; a failed read (`None`) ends the
/// loop.
pub fn read_step(read: Option<usize>, buffer: &[u8]) -> (step: ReadStep)
    requires
        read is Some ==> read->Some_0 <= buffer@.len(),
    ensures
        read is None <==> step is Finish,
        read is Some ==> (step matches ReadStep::Forward(message) && message@ == buffer@.subrange(
            0,
            read->Some_0 as int,
        )),
{
    match read {
        None => ReadStep::Finish,
        Some(length) => {
            let mut message: Vec<u8> = Vec::with_capacity(length);
            let mut i: usize = 0;
            while i < length
                invariant
                    length <= buffer@.len(),
                    i <= length,
                    message@ == buffer@.subrange(0, i as int),
                decreases length - i,
            {
                message.push(buffer[i]);
                i = i + 1;
            }
            ReadStep::Forward(message)
        },
    }
}

} // verus!
