use vstd::prelude::*;

use std::collections::VecDeque;

use crate::codec::{Update, encode, encodable, record};

verus! {

/// How many unsent messages the outbound queue keeps after a flush.
pub const MAX_FAILED_SENT_ON_QUEUE: usize = 16;

/// How many times connecting is tried before giving up.
pub const MAX_CONNECT_ATTEMPTS: u32 = 5;

/// The outbound queue after a flush that sent its first `sent` messages
/// and, when `failed`, failed on the next one: the failed message goes to
/// the tail, then the oldest entries are dropped down to the cap.
pub open spec fn flushed<T>(q: Seq<T>, sent: int, failed: bool) -> Seq<T> {
    let rest = q.skip(sent);
    let rotated = if failed && rest.len() > 0 { rest.drop_first().push(rest[0]) } else { rest };
    if rotated.len() > MAX_FAILED_SENT_ON_QUEUE {
        rotated.skip(rotated.len() - MAX_FAILED_SENT_ON_QUEUE)
    } else {
        rotated
    }
}

/// Whether connecting should be tried again after `attempts` failed
/// attempts; once the bound is reached the failure is final.
pub fn connect_should_retry(attempts: u32) -> (r: bool)
    ensures
        r == (attempts < MAX_CONNECT_ATTEMPTS),
{
    attempts < MAX_CONNECT_ATTEMPTS
}

/// A peer session's own state: the peer's address and the queue of encoded
/// local edits waiting to be written, oldest first. The stream itself is
/// held by the caller, which reports how each flush went.
pub struct Client {
    pub addr: String,
    pub live: bool,
    pub pubsub: VecDeque<Vec<u8>>,
}

impl Client {
    /// The queued messages as bytes, oldest first.
    pub open spec fn queue(&self) -> Seq<Seq<u8>> {
        self.pubsub@.map_values(|m: Vec<u8>| m@)
    }

    /// A session for a connection to `addr`, with nothing queued.
    pub fn new(addr: &String) -> (r: Client)
        ensures
            r.addr@ == addr@,
            r.live,
            r.pubsub@.len() == 0,
    {
        Client { addr: addr.clone(), live: true, pubsub: VecDeque::new() }
    }

    /// Encodes `update` and appends it to the outbound queue.
    pub fn publish(&mut self, update: Update)
        requires
            encodable(update@),
        ensures
            final(self).queue() == old(self).queue().push(record(update@).push(10)),
            final(self).addr == old(self).addr,
            final(self).live == old(self).live,
    {
        let bytes = encode(&update);
        self.pubsub.push_back(bytes);
        assert(self.queue() =~= old(self).queue().push(record(update@).push(10)));
    }

    /// The messages waiting to be written, oldest first.
    pub fn pending(&self) -> (r: &VecDeque<Vec<u8>>)
        ensures
            r@ == self.pubsub@,
    {
        &self.pubsub
    }

    /// Records the outcome of one flush attempt, in which the first `sent`
    /// queued messages were written in order and, when `failed`, writing
    /// the next one failed and flushing stopped. The failed message is
    /// requeued at the tail, and the queue is then trimmed to
    /// `MAX_FAILED_SENT_ON_QUEUE` entries by dropping the oldest, so it keeps
    /// the most recently queued messages.
    pub fn broadcast_client_updates(&mut self, sent: usize, failed: bool)
        requires
            sent + (if failed { 1int } else { 0int }) <= old(self).pubsub@.len(),
        ensures
            final(self).pubsub@ == flushed(old(self).pubsub@, sent as int, failed),
            final(self).pubsub@.len() <= MAX_FAILED_SENT_ON_QUEUE,
            final(self).addr == old(self).addr,
            final(self).live == old(self).live,
    {
        let ghost q = self.pubsub@;
        let mut k: usize = 0;
        while k < sent
            invariant
                0 <= k <= sent,
                sent <= q.len(),
                self.pubsub@ == q.skip(k as int),
                self.addr == old(self).addr,
                self.live == old(self).live,
            decreases sent - k,
        {
            self.pubsub.pop_front();
            assert(q.skip(k as int).subrange(1, q.skip(k as int).len() as int) =~= q.skip(k + 1));
            k += 1;
        }
        let ghost rest = self.pubsub@;
        if failed {
            if let Some(m) = self.pubsub.pop_front() {
                self.pubsub.push_back(m);
                assert(self.pubsub@ =~= rest.drop_first().push(rest[0]));
            }
        }
        let ghost rotated = self.pubsub@;
        while self.pubsub.len() > MAX_FAILED_SENT_ON_QUEUE
            invariant
                rotated.len() >= self.pubsub@.len(),
                self.pubsub@ == rotated.skip(rotated.len() - self.pubsub@.len()),
                self.pubsub@.len() >= MAX_FAILED_SENT_ON_QUEUE || self.pubsub@ == rotated,
                self.addr == old(self).addr,
                self.live == old(self).live,
            decreases self.pubsub@.len(),
        {
            self.pubsub.pop_front();
            assert(self.pubsub@ =~= rotated.skip(rotated.len() - self.pubsub@.len()));
        }
        assert(rotated.skip(0) =~= rotated);
    }
}

} // verus!
