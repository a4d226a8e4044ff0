//! Historical backfill of a channel: which page to ask for next and when a
//! batch of fetched messages goes to the log.

use crate::messages::Message;
use vstd::prelude::*;

verus! {

/// The ids of messages, in order.
pub open spec fn ids_of(ms: Seq<Message>) -> Seq<u64> {
    ms.map_values(|m: Message| m.id)
}

/// Whether messages of a channel of this type (the platform's numbering)
/// are archived: text, voice, announcement and media channels, and threads.
pub fn is_archivable_channel(kind: u8) -> (r: bool)
    ensures
        r == (kind == 0 || kind == 2 || kind == 5 || kind == 10 || kind == 11 || kind == 12
            || kind == 16),
{
    kind == 0 || kind == 2 || kind == 5 || kind == 10 || kind == 11 || kind == 12 || kind == 16
}

/// The backfill of one channel. The caller asks for a page of at most
/// `per_request` messages after `next_after()`, newest first as the API
/// returns them, and hands it to `on_page`; whenever enough messages are
/// buffered they come back, oldest first, to be written as one bulk append
/// and flushed. When `is_done()`, `finish` returns what is left.
///
/// Over a whole backfill, the batches returned hold every fetched message
/// exactly once, in ascending order of arrival (each page reversed).
pub struct ChannelCatchup {
    after: u64,
    per_request: u16,
    batch_size: usize,
    buffer: Vec<Message>,
    done: bool,
    fetched: Ghost<Seq<u64>>,
    written: Ghost<Seq<u64>>,
}

/// A page as it goes into the log: oldest first.
pub open spec fn oldest_first(page: Seq<u64>) -> Seq<u64> {
    page.reverse()
}

impl ChannelCatchup {
    /// The id after which the next page starts.
    pub closed spec fn after(&self) -> u64 {
        self.after
    }

    pub closed spec fn done(&self) -> bool {
        self.done
    }

    /// Ids of all fetched messages in the order they go to the log.
    pub closed spec fn fetched(&self) -> Seq<u64> {
        self.fetched@
    }

    /// Ids of the messages handed out in batches so far.
    pub closed spec fn written(&self) -> Seq<u64> {
        self.written@
    }

    /// Ids of the buffered messages.
    pub closed spec fn buffered(&self) -> Seq<u64> {
        ids_of(self.buffer@)
    }

    pub closed spec fn per_request(&self) -> u16 {
        self.per_request
    }

    pub closed spec fn batch_size(&self) -> usize {
        self.batch_size
    }

    pub closed spec fn wf(&self) -> bool {
        self.written@ + ids_of(self.buffer@) == self.fetched@
    }

    /// Starts after the last archived message, or after id 1 when the log
    /// holds none.
    pub fn new(last_message_id: Option<u64>, per_request: u16, batch_size: usize) -> (r: Self)
        ensures
            r.wf(),
            r.after() == match last_message_id {
                Some(id) => id,
                None => 1u64,
            },
            !r.done(),
            r.fetched() == Seq::<u64>::empty(),
            r.written() == Seq::<u64>::empty(),
            r.buffered() == Seq::<u64>::empty(),
            r.per_request() == per_request,
            r.batch_size() == batch_size,
    {
        let after = match last_message_id {
            Some(id) => id,
            None => 1,
        };
        let r = ChannelCatchup {
            after,
            per_request,
            batch_size,
            buffer: Vec::new(),
            done: false,
            fetched: Ghost(Seq::empty()),
            written: Ghost(Seq::empty()),
        };
        proof {
            assert(r.written@ + ids_of(r.buffer@) =~= r.fetched@);
        }
        r
    }

    pub fn is_done(&self) -> (r: bool)
        ensures
            r == self.done(),
    {
        self.done
    }

    /// The id to fetch after, while the backfill is not done.
    pub fn next_after(&self) -> (r: Option<u64>)
        ensures
            r == if self.done() {
                None
            } else {
                Some(self.after())
            },
    {
        if self.done {
            None
        } else {
            Some(self.after)
        }
    }

    /// Takes a page, newest first. An empty page ends the backfill; so does
    /// a short one, after its messages are taken. The next page starts after
    /// the newest message of this one. The buffer is handed out, oldest
    /// first, once it holds at least `batch_size` messages.
    pub fn on_page(&mut self, page: Vec<Message>) -> (batch: Option<Vec<Message>>)
        requires
            old(self).wf(),
        ensures
            final(self).wf(),
            final(self).per_request() == old(self).per_request(),
            final(self).batch_size() == old(self).batch_size(),
            page@.len() == 0 ==> final(self).done() && batch is None && final(self).fetched()
                == old(self).fetched() && final(self).written() == old(self).written()
                && final(self).after() == old(self).after(),
            page@.len() > 0 ==> {
                &&& final(self).after() == page@[0].id
                &&& final(self).done() == (old(self).done() || page@.len() < old(self).per_request())
                &&& final(self).fetched() == old(self).fetched() + oldest_first(ids_of(page@))
                &&& old(self).buffered().len() + page@.len() >= old(self).batch_size() ==> {
                    &&& batch matches Some(b) && ids_of(b@) == old(self).buffered()
                        + oldest_first(ids_of(page@))
                    &&& final(self).buffered() == Seq::<u64>::empty()
                }
                &&& old(self).buffered().len() + page@.len() < old(self).batch_size() ==> {
                    &&& batch is None
                    &&& final(self).buffered() == old(self).buffered() + oldest_first(
                        ids_of(page@),
                    )
                }
            },
    {
        if page.len() == 0 {
            self.done = true;
            return None;
        }
        let n = page.len();
        self.after = page[0].id;
        if n < self.per_request as usize {
            self.done = true;
        }
        let ghost ids = ids_of(page@);
        let ghost buf0 = ids_of(self.buffer@);
        let ghost written0 = self.written@;
        let ghost fetched0 = self.fetched@;
        let ghost after0 = self.after;
        let ghost done0 = self.done;
        let mut rest = page;
        let mut k: usize = 0;
        while rest.len() > 0
            invariant
                self.written@ == written0,
                self.fetched@ == fetched0,
                written0 + buf0 == fetched0,
                self.after == after0,
                self.done == done0,
                self.per_request == old(self).per_request,
                self.batch_size == old(self).batch_size,
                k + rest@.len() == n == ids.len(),
                ids_of(rest@) == ids.subrange(0, (n - k) as int),
                ids_of(self.buffer@) == buf0 + ids.reverse().subrange(0, k as int),
            decreases rest@.len(),
        {
            let ghost r0 = rest@;
            let m = rest.pop().unwrap();
            let ghost before = ids_of(self.buffer@);
            proof {
                assert(m == r0[r0.len() - 1]);
                assert(ids_of(r0)[r0.len() - 1] == m.id);
                assert(m.id == ids[(n - k - 1) as int]);
                assert(ids.reverse()[k as int] == ids[(n - 1 - k) as int]);
            }
            self.buffer.push(m);
            k = k + 1;
            proof {
                assert(ids_of(self.buffer@) =~= before.push(ids.reverse()[(k - 1) as int]));
                assert(ids_of(self.buffer@) =~= buf0 + ids.reverse().subrange(0, k as int));
                assert(ids_of(rest@) =~= ids.subrange(0, (n - k) as int));
            }
        }
        proof {
            assert(ids.reverse().subrange(0, n as int) =~= oldest_first(ids));
            assert(self.written@ + ids_of(self.buffer@) =~= self.fetched@ + oldest_first(ids));
        }
        self.fetched = Ghost(self.fetched@ + oldest_first(ids));
        if self.buffer.len() >= self.batch_size {
            let out = self.take_buffer();
            Some(out)
        } else {
            None
        }
    }

    fn take_buffer(&mut self) -> (out: Vec<Message>)
        requires
            old(self).wf(),
        ensures
            final(self).wf(),
            ids_of(out@) == old(self).buffered(),
            final(self).buffered() == Seq::<u64>::empty(),
            final(self).fetched() == old(self).fetched(),
            final(self).written() == old(self).written() + old(self).buffered(),
            final(self).after() == old(self).after(),
            final(self).done() == old(self).done(),
            final(self).per_request() == old(self).per_request(),
            final(self).batch_size() == old(self).batch_size(),
    {
        let mut out: Vec<Message> = Vec::new();
        std::mem::swap(&mut out, &mut self.buffer);
        self.written = Ghost(self.written@ + ids_of(out@));
        proof {
            assert(ids_of(self.buffer@) =~= Seq::<u64>::empty());
            assert(self.written@ + ids_of(self.buffer@) =~= self.written@);
        }
        out
    }

    /// Ends the backfill: the messages still buffered, oldest first. After
    /// it everything fetched has been handed out, in order.
    pub fn finish(&mut self) -> (rest: Vec<Message>)
        requires
            old(self).wf(),
        ensures
            final(self).wf(),
            ids_of(rest@) == old(self).buffered(),
            final(self).written() == final(self).fetched(),
            final(self).fetched() == old(self).fetched(),
    {
        self.take_buffer()
    }
}

} // verus!
