//! One connection's state: its price store and its frame decoder, and the
//! replies that each message gets.
use vstd::prelude::*;
use std::collections::BTreeMap;
use crate::frame::{frames, rest, FrameDecoder, Message};
use crate::store::{entries_between, entries_sum, lemma_listed_sums, mean_of, range_count, range_sum};
use crate::wire::{be_bytes, encode_i32};

verus! {

/// The reply to a frame with an unknown tag: the ASCII text
/// `undefined behavior`, byte by byte.
pub open spec fn diagnostic() -> Seq<u8> {
    seq![
        0x75u8, 0x6e, 0x64, 0x65, 0x66, 0x69, 0x6e, 0x65, 0x64, 0x20,
        0x62, 0x65, 0x68, 0x61, 0x76, 0x69, 0x6f, 0x72,
    ]
}

/// The store after `msg`: an insert records its price at its timestamp,
/// replacing any earlier one; other messages leave the store as it is.
pub open spec fn apply(m: Map<i32, i32>, msg: Message) -> Map<i32, i32> {
    match msg {
        Message::Insert { timestamp, price } => m.insert(timestamp, price),
        _ => m,
    }
}

/// The bytes written back for `msg` on store `m`: the mean as four
/// big-endian bytes for a query, nothing for an insert, and the diagnostic
/// text for an invalid frame.
pub open spec fn reply(m: Map<i32, i32>, msg: Message) -> Seq<u8> {
    match msg {
        Message::Insert { .. } => Seq::empty(),
        Message::Query { start, end } => be_bytes(mean_of(m, start, end) as i32),
        Message::Invalid => diagnostic(),
    }
}

/// The store after the messages `msgs`, taken in order.
pub open spec fn store_after(m: Map<i32, i32>, msgs: Seq<Message>) -> Map<i32, i32>
    decreases msgs.len(),
{
    if msgs.len() == 0 {
        m
    } else {
        apply(store_after(m, msgs.drop_last()), msgs.last())
    }
}

/// All bytes written back for the messages `msgs`, taken in order.
pub open spec fn output(m: Map<i32, i32>, msgs: Seq<Message>) -> Seq<u8>
    decreases msgs.len(),
{
    if msgs.len() == 0 {
        Seq::empty()
    } else {
        output(m, msgs.drop_last()) + reply(store_after(m, msgs.drop_last()), msgs.last())
    }
}

/// The state of one connection.
pub struct Session {
    prices: BTreeMap<i32, i32>,
    decoder: FrameDecoder,
}

impl Session {
    /// The prices recorded so far, by timestamp.
    pub closed spec fn store(&self) -> Map<i32, i32> {
        self.prices@
    }

    /// The bytes received but not yet decoded.
    pub closed spec fn pending(&self) -> Seq<u8> {
        self.decoder.pending()
    }

    pub closed spec fn wf(&self) -> bool {
        self.decoder.wf()
    }

    pub fn new() -> (r: Session)
        ensures
            r.wf(),
            r.store() == Map::<i32, i32>::empty(),
            r.pending() == Seq::<u8>::empty(),
    {
        Session { prices: BTreeMap::new(), decoder: FrameDecoder::new() }
    }

    /// Records `price` at `timestamp`, replacing any earlier price there.
    pub fn insert(&mut self, timestamp: i32, price: i32)
        requires
            old(self).wf(),
        ensures
            final(self).wf(),
            final(self).store() == old(self).store().insert(timestamp, price),
            final(self).pending() == old(self).pending(),
    {
        self.prices.insert(timestamp, price);
    }

    /// The mean price over the timestamps in `[start, end]`, truncated
    /// toward zero; zero where `start > end` or the range holds no price.
    pub fn get_mean(&self, start: i32, end: i32) -> (r: i32)
        ensures
            r as int == mean_of(self.store(), start, end),
    {
        if start > end {
            return 0;
        }
        let entries = entries_between(&self.prices, start, end);
        let mut total: i64 = 0;
        let mut count: u64 = 0;
        let mut i: usize = 0;
        while i < entries.len()
            invariant
                i <= entries@.len(),
                count == i,
                total as int == entries_sum(entries@.take(i as int)),
                -(i as int) * 0x8000_0000 <= total <= (i as int) * 0x7fff_ffff,
                i > 0 ==> entries@[i - 1].0 >= i32::MIN + (i - 1),
                crate::store::lists_range(entries@, self.prices@, start as int, end as int),
            decreases entries@.len() - i,
        {
            let (k, p) = entries[i];
            proof {
                if i > 0 {
                    assert(entries@[i - 1].0 < entries@[i as int].0);
                }
                assert(entries@.take(i + 1).drop_last() =~= entries@.take(i as int));
            }
            total = total + p as i64;
            count = count + 1;
            i = i + 1;
        }
        proof {
            assert(entries@.take(i as int) =~= entries@);
            lemma_listed_sums(entries@, self.prices@, start as int, end as int);
        }
        if count == 0 {
            return 0;
        }
        let ghost n = count as int;
        if total >= 0 {
            let q = total as u64 / count;
            proof {
                assert(q <= 0x7fff_ffff) by (nonlinear_arith)
                    requires
                        q == total as int / n,
                        0 <= total <= n * 0x7fff_ffff,
                        n > 0,
                ;
            }
            q as i32
        } else {
            let mag: u64 = (-(total + 1)) as u64 + 1;
            let q = mag / count;
            proof {
                assert(q <= 0x8000_0000) by (nonlinear_arith)
                    requires
                        q == mag as int / n,
                        0 <= mag <= n * 0x8000_0000,
                        n > 0,
                ;
            }
            (-(q as i64)) as i32
        }
    }

    /// Applies one message and returns the bytes to write back for it.
    pub fn handle(&mut self, msg: Message) -> (r: Vec<u8>)
        requires
            old(self).wf(),
        ensures
            final(self).wf(),
            r@ == reply(old(self).store(), msg),
            final(self).store() == apply(old(self).store(), msg),
            final(self).pending() == old(self).pending(),
    {
        match msg {
            Message::Insert { timestamp, price } => {
                self.insert(timestamp, price);
                Vec::new()
            },
            Message::Query { start, end } => {
                let mean = self.get_mean(start, end);
                encode_i32(mean)
            },
            Message::Invalid => {
                let r = vec![
                    0x75u8, 0x6e, 0x64, 0x65, 0x66, 0x69, 0x6e, 0x65, 0x64, 0x20,
                    0x62, 0x65, 0x68, 0x61, 0x76, 0x69, 0x6f, 0x72,
                ];
                proof {
                    assert(r@ =~= diagnostic());
                }
                r
            },
        }
    }

    /// Takes in bytes as they arrive on the connection, handles every frame
    /// that they complete, in order, and returns all bytes to write back.
    pub fn receive(&mut self, chunk: &[u8]) -> (r: Vec<u8>)
        requires
            old(self).wf(),
            chunk@.len() + 9 <= usize::MAX,
        ensures
            final(self).wf(),
            r@ == output(old(self).store(), frames(old(self).pending() + chunk@)),
            final(self).store() == store_after(
                old(self).store(),
                frames(old(self).pending() + chunk@),
            ),
            final(self).pending() == rest(old(self).pending() + chunk@),
    {
        let ghost m0 = self.store();
        let msgs = self.decoder.feed(chunk);
        let mut out: Vec<u8> = Vec::new();
        let mut i: usize = 0;
        while i < msgs.len()
            invariant
                self.wf(),
                i <= msgs@.len(),
                out@ == output(m0, msgs@.take(i as int)),
                self.store() == store_after(m0, msgs@.take(i as int)),
                self.pending() == rest(old(self).pending() + chunk@),
            decreases msgs@.len() - i,
        {
            proof {
                assert(msgs@.take(i + 1).drop_last() =~= msgs@.take(i as int));
            }
            let mut r = self.handle(msgs[i]);
            out.append(&mut r);
            i = i + 1;
        }
        proof {
            assert(msgs@.take(i as int) =~= msgs@);
        }
        out
    }

    /// Ends the stream: a partial frame left over is reported with the
    /// diagnostic text and dropped; with nothing left over nothing is written.
    pub fn finish(&mut self) -> (r: Vec<u8>)
        requires
            old(self).wf(),
        ensures
            final(self).wf(),
            old(self).pending().len() > 0 ==> r@ == diagnostic(),
            old(self).pending().len() == 0 ==> r@ == Seq::<u8>::empty(),
            final(self).pending() == Seq::<u8>::empty(),
            final(self).store() == old(self).store(),
    {
        let left = self.decoder.pending_len();
        self.decoder = FrameDecoder::new();
        if left > 0 {
            self.handle(Message::Invalid)
        } else {
            Vec::new()
        }
    }
}

/// Inserting at a timestamp twice leaves one entry there, with the later
/// price: the store is as if only the later insert had happened, and a
/// range around that timestamp alone has that price as its mean.
pub proof fn lemma_insert_overwrites(m: Map<i32, i32>, timestamp: i32, first: i32, second: i32)
    ensures
        ({
            let twice = store_after(
                m,
                seq![
                    Message::Insert { timestamp, price: first },
                    Message::Insert { timestamp, price: second },
                ],
            );
            &&& twice == apply(m, Message::Insert { timestamp, price: second })
            &&& twice.contains_key(timestamp) && twice[timestamp] == second
            &&& mean_of(twice, timestamp, timestamp) == second as int
        }),
{
    let msgs = seq![
        Message::Insert { timestamp, price: first },
        Message::Insert { timestamp, price: second },
    ];
    assert(msgs.drop_last().drop_last() =~= Seq::<Message>::empty());
    let once = store_after(m, msgs.drop_last());
    assert(store_after(m, msgs.drop_last().drop_last()) == m);
    assert(once == m.insert(timestamp, first));
    let twice = store_after(m, msgs);
    assert(twice == once.insert(timestamp, second));
    assert(twice =~= m.insert(timestamp, second));
    crate::store::lemma_mean_of_single_entry(twice, timestamp, timestamp, timestamp);
}

} // verus!
