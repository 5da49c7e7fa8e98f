//! The client's side of an exchange: which received message answers which
//! wait.
//!
//! Replies carry no request identifier; a reply belongs to a wait if its
//! address is the one waited for. Messages that arrive while another address
//! is awaited are kept, in the order of their arrival, until a wait claims
//! them. Two outstanding requests to one address cannot be told apart: the
//! wait gets whichever matching message came first.
//!
//! The transport and the clock stay with the caller. A wait proceeds in steps:
//! [`OscClient::wait_for`] opens it and claims a message that is already
//! there; then the caller polls the transport and hands each outcome to
//! [`OscClient::handle_waiting_errors`]. Time is counted from the end of the
//! first poll, and after every later poll that did not end the wait the caller
//! asks [`OscClient::check_deadline`] whether to go on.

use std::collections::VecDeque;
use vstd::prelude::*;
use crate::errors::{Error, ErrorView, SocketError};
use crate::message::{MessageView, OscMessage};
use crate::wire::decoding;

verus! {

/// The timeout of a client that was given none, in microseconds.
pub const DEFAULT_TIMEOUT_MICROS: u64 = 1_000_000;

/// The position in `queue` of the first message addressed to `address`, or
/// the length of `queue` if there is none.
pub open spec fn first_for(queue: Seq<OscMessage>, address: Seq<char>) -> int
    decreases queue.len(),
{
    if queue.len() == 0 {
        0
    } else if queue[0].address@ == address {
        0
    } else {
        1 + first_for(queue.drop_first(), address)
    }
}

/// The first message for an address is the one before which none is for it.
pub proof fn lemma_first_for(queue: Seq<OscMessage>, address: Seq<char>, k: int)
    requires
        0 <= k <= queue.len(),
        forall|j: int| 0 <= j < k ==> (#[trigger] queue[j]).address@ != address,
        k < queue.len() ==> queue[k].address@ == address,
    ensures
        first_for(queue, address) == k,
    decreases queue.len(),
{
    if queue.len() > 0 && k > 0 {
        let rest = queue.drop_first();
        lemma_first_for(rest, address, k - 1);
    }
}

/// Before the first message for an address there is none for it, and where
/// one is found, it is for that address.
pub proof fn lemma_first_for_is_first(queue: Seq<OscMessage>, address: Seq<char>)
    ensures
        0 <= first_for(queue, address) <= queue.len(),
        forall|j: int|
            0 <= j < first_for(queue, address) ==> (#[trigger] queue[j]).address@ != address,
        first_for(queue, address) < queue.len() ==> queue[first_for(queue, address)].address@
            == address,
    decreases queue.len(),
{
    if queue.len() > 0 && queue[0].address@ != address {
        let rest = queue.drop_first();
        lemma_first_for_is_first(rest, address);
        assert forall|j: int| 0 <= j < first_for(queue, address) implies (
        #[trigger] queue[j]).address@ != address by {
            if j > 0 {
                assert(queue[j] == rest[j - 1]);
            }
        }
    }
}

/// Claims for different addresses do not disturb each other: once the first
/// message for `claimed` has left the queue, the first message for any other
/// address is the one that it was before.
pub proof fn lemma_claim_leaves_other_waits(
    queue: Seq<OscMessage>,
    claimed: Seq<char>,
    other: Seq<char>,
)
    requires
        claimed != other,
        first_for(queue, claimed) < queue.len(),
    ensures
        ({
            let left = queue.remove(first_for(queue, claimed));
            if first_for(queue, other) < queue.len() {
                &&& first_for(left, other) < left.len()
                &&& left[first_for(left, other)] == queue[first_for(queue, other)]
            } else {
                first_for(left, other) == left.len()
            }
        }),
{
    let gone = first_for(queue, claimed);
    let found = first_for(queue, other);
    let left = queue.remove(gone);
    lemma_first_for_is_first(queue, claimed);
    lemma_first_for_is_first(queue, other);
    let moved = if found < gone {
        found
    } else {
        found - 1
    };
    assert forall|j: int| 0 <= j < moved implies (#[trigger] left[j]).address@ != other by {}
    lemma_first_for(left, other, moved);
}

/// What a client remembers between calls: the messages received and not yet
/// claimed, how long a wait may last, and how large a datagram it accepts.
pub struct OscClient {
    message_queue: VecDeque<OscMessage>,
    timeout_micros: u64,
    buffer_size: usize,
}

impl OscClient {
    /// The unclaimed messages, oldest first.
    pub closed spec fn queue(&self) -> Seq<OscMessage> {
        self.message_queue@
    }

    /// How long a wait may last, in microseconds.
    pub closed spec fn timeout(&self) -> u64 {
        self.timeout_micros
    }

    /// The length of the buffer that datagrams are received into.
    pub closed spec fn capacity(&self) -> usize {
        self.buffer_size
    }

    /// A client with nothing queued. Without a timeout of its own it waits
    /// for [`DEFAULT_TIMEOUT_MICROS`].
    pub fn new(buffer_size: usize, timeout_micros: Option<u64>) -> (client: Self)
        ensures
            client.queue() == Seq::<OscMessage>::empty(),
            client.capacity() == buffer_size,
            client.timeout() == match timeout_micros {
                Some(t) => t,
                None => DEFAULT_TIMEOUT_MICROS,
            },
    {
        let timeout_micros = match timeout_micros {
            Some(t) => t,
            None => DEFAULT_TIMEOUT_MICROS,
        };
        OscClient { message_queue: VecDeque::new(), timeout_micros, buffer_size }
    }

    /// A second client for the same connection: same timeout and capacity,
    /// and a queue of its own that starts empty.
    pub fn try_clone(&self) -> (client: Self)
        ensures
            client.queue() == Seq::<OscMessage>::empty(),
            client.capacity() == self.capacity(),
            client.timeout() == self.timeout(),
    {
        OscClient {
            message_queue: VecDeque::new(),
            timeout_micros: self.timeout_micros,
            buffer_size: self.buffer_size,
        }
    }

    /// How long a wait may last, in microseconds.
    pub fn timeout_micros(&self) -> (t: u64)
        ensures
            t == self.timeout(),
    {
        self.timeout_micros
    }

    /// The length of the buffer that datagrams are received into.
    pub fn buffer_size(&self) -> (n: usize)
        ensures
            n == self.capacity(),
    {
        self.buffer_size
    }

    /// How many messages are queued.
    pub fn queued(&self) -> (n: usize)
        ensures
            n == self.queue().len(),
    {
        self.message_queue.len()
    }

    /// What one receive attempt amounts to: the transport's failure, or what
    /// the buffer it filled decodes to.
    pub fn recv(&self, received: Result<&[u8], SocketError>) -> (r: Result<OscMessage, Error>)
        ensures
            match received {
                Err(failure) => r == Err::<OscMessage, Error>(Error::Socket(failure)),
                Ok(data) => match r {
                    Ok(message) => decoding(data@) == Ok::<MessageView, ErrorView>(message@),
                    Err(e) => decoding(data@) == Err::<MessageView, ErrorView>(e@),
                },
            },
    {
        match received {
            Err(failure) => Err(Error::Socket(failure)),
            Ok(data) => OscMessage::parse_bytes(data),
        }
    }

    /// Opens a wait for `addr`: claims the oldest queued message addressed to
    /// it. The other messages stay queued in their order.
    ///
    /// `None` means that nothing queued is for `addr`, and that the caller has
    /// to poll the transport.
    pub fn wait_for(&mut self, addr: &str) -> (r: Option<OscMessage>)
        ensures
            final(self).timeout() == old(self).timeout(),
            final(self).capacity() == old(self).capacity(),
            ({
                let found = first_for(old(self).queue(), addr@);
                if found < old(self).queue().len() {
                    &&& r == Some(old(self).queue()[found])
                    &&& final(self).queue() == old(self).queue().remove(found)
                } else {
                    &&& r is None
                    &&& final(self).queue() == old(self).queue()
                }
            }),
    {
        let target = addr.to_string();
        let count = self.message_queue.len();
        let mut i: usize = 0;
        while i < count
            invariant
                i <= count,
                count == self.message_queue@.len(),
                self.message_queue@ == old(self).message_queue@,
                self.timeout_micros == old(self).timeout_micros,
                self.buffer_size == old(self).buffer_size,
                target@ == addr@,
                forall|j: int| 0 <= j < i ==> (#[trigger] self.message_queue@[j]).address@ != addr@,
            decreases count - i,
        {
            if self.message_queue[i].address == target {
                proof {
                    lemma_first_for(self.message_queue@, addr@, i as int);
                }
                return self.message_queue.remove(i);
            }
            i += 1;
        }
        proof {
            lemma_first_for(self.message_queue@, addr@, count as int);
        }
        None
    }

    /// Takes in the outcome of one poll while `addr` is awaited.
    ///
    /// A message for `addr` ends the wait. A message for another address is
    /// queued behind those already waiting. That no datagram was ready is not
    /// an error: the wait goes on. Every other failure ends the wait with that
    /// failure, and leaves the queue as it was.
    pub fn handle_waiting_errors(&mut self, res: Result<OscMessage, Error>, addr: &str) -> (r:
        Result<Option<OscMessage>, Error>)
        ensures
            final(self).timeout() == old(self).timeout(),
            final(self).capacity() == old(self).capacity(),
            match res {
                Ok(message) => if message.address@ == addr@ {
                    &&& r == Ok::<Option<OscMessage>, Error>(Some(message))
                    &&& final(self).queue() == old(self).queue()
                } else {
                    &&& r == Ok::<Option<OscMessage>, Error>(None)
                    &&& final(self).queue() == old(self).queue().push(message)
                },
                Err(Error::Socket(SocketError::WouldBlock)) => {
                    &&& r == Ok::<Option<OscMessage>, Error>(None)
                    &&& final(self).queue() == old(self).queue()
                },
                Err(e) => {
                    &&& r == Err::<Option<OscMessage>, Error>(e)
                    &&& final(self).queue() == old(self).queue()
                },
            },
    {
        match res {
            Ok(message) => {
                let target = addr.to_string();
                if message.address == target {
                    return Ok(Some(message));
                }
                self.message_queue.push_back(message);
                Ok(None)
            },
            Err(Error::Socket(SocketError::WouldBlock)) => Ok(None),
            Err(e) => Err(e),
        }
    }

    /// Whether a wait that has lasted `elapsed_micros` may go on: once the
    /// timeout is reached, it fails with the elapsed time.
    pub fn check_deadline(&self, elapsed_micros: u64) -> (r: Result<(), Error>)
        ensures
            match r {
                Ok(()) => elapsed_micros < self.timeout(),
                Err(e) => elapsed_micros >= self.timeout() && e == Error::Socket(
                    SocketError::TimedOut(elapsed_micros),
                ),
            },
    {
        if elapsed_micros >= self.timeout_micros {
            Err(Error::Socket(SocketError::TimedOut(elapsed_micros)))
        } else {
            Ok(())
        }
    }
}

} // verus!
