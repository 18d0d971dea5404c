//! Model of the broker the workers coordinate through.
//!
//! The real broker is a network service offering durable lists and
//! streams; the pipeline drives it through push/pop operations, an atomic
//! right-pop-left-push move, and per-stream consumer groups. This module
//! gives those operations exact semantics over in-memory state. Lists
//! grow at the left (index zero) and are consumed from the right, as the
//! workers use them; streams are append-only, and a consumer group is a
//! cursor whose position is the ground truth for filter progress.

use vstd::prelude::*;

use crate::seqtools::bytes_eq;

verus! {

broadcast use crate::seqtools::lemma_bytes_deep;

/// Number of permission levels, and so of fan-out streams.
pub const STREAM_COUNT: usize = 3;

/// A consumer group's cursor on one permission stream. The `delivered`
/// ghost holds everything the group has been handed, in order; the model
/// keeps it equal to the consumed prefix of the stream, which is the
/// exactly-once guarantee.
pub struct GroupCursor {
    /// Permission level of the stream, in `1..=3`.
    pub stream: usize,
    /// The owning filter's identifier.
    pub group_id: i64,
    /// How many entries of the stream the group has consumed.
    pub offset: usize,
    /// Everything ever delivered to the group.
    pub delivered: Ghost<Seq<i64>>,
}

/// One filter's output list of serialized result documents.
pub struct ResultQueue {
    pub filter_id: i64,
    pub items: Vec<Vec<u8>>,
}

/// The broker state the pipeline uses: the packet list with its in-flight
/// and dead-letter companions, the classifier list, one stream per
/// permission level with its consumer groups, and per-filter output lists.
pub struct Broker {
    pub packet_queue: Vec<Vec<u8>>,
    pub packet_queue_temp: Vec<Vec<u8>>,
    pub dead_letter: Vec<Vec<u8>>,
    pub classifier_queue: Vec<i64>,
    pub streams: Vec<Vec<i64>>,
    pub groups: Vec<GroupCursor>,
    pub filter_results: Vec<ResultQueue>,
}

/// Where a finished in-flight packet goes.
#[derive(Clone, Copy, Debug, PartialEq, Eq, Structural)]
pub enum PacketDisposition {
    /// Persisted (or proven duplicate): the copy is dropped.
    Done,
    /// Transient failure: the bytes go back to the left of the packet
    /// queue for a retry.
    Requeue,
    /// Fatal decode failure: the bytes go to the dead-letter list.
    DeadLetter,
}

/// `s` with its first occurrence of `x` removed.
pub open spec fn remove_first(s: Seq<Seq<u8>>, x: Seq<u8>) -> Seq<Seq<u8>>
    decreases s.len(),
{
    if s.len() == 0 {
        s
    } else if s.first() == x {
        s.drop_first()
    } else {
        seq![s.first()] + remove_first(s.drop_first(), x)
    }
}

/// Removing the first occurrence at its index.
proof fn lemma_remove_first_at(s: Seq<Seq<u8>>, x: Seq<u8>, i: int)
    requires
        0 <= i < s.len(),
        s[i] == x,
        forall|j: int| 0 <= j < i ==> s[j] != x,
    ensures
        remove_first(s, x) == s.remove(i),
    decreases i,
{
    if i == 0 {
        assert(s.first() == x);
        assert(s.drop_first() =~= s.remove(0));
    } else {
        assert(s.first() != x);
        let rest = s.drop_first();
        assert(rest[i - 1] == x);
        assert(forall|j: int| 0 <= j < i - 1 ==> rest[j] == s[j + 1] && rest[j] != x);
        lemma_remove_first_at(rest, x, i - 1);
        assert(seq![s.first()] + rest.remove(i - 1) =~= s.remove(i));
    }
}

impl Broker {
    /// Streams exist for each level, cursors point into their streams,
    /// group identifiers are unique per stream, result lists are unique
    /// per filter, and every group's delivery record is exactly the
    /// prefix of its stream it has consumed.
    pub open spec fn wf(self) -> bool {
        &&& self.streams@.len() == STREAM_COUNT
        &&& forall|i: int|
            0 <= i < self.groups@.len() ==> {
                let g = #[trigger] self.groups@[i];
                &&& 1 <= g.stream <= STREAM_COUNT
                &&& g.offset <= self.streams@[g.stream - 1]@.len()
                &&& g.delivered@ == self.streams@[g.stream - 1]@.take(g.offset as int)
            }
        &&& forall|i: int, j: int|
            0 <= i < j < self.groups@.len() ==> !(self.groups@[i].stream == self.groups@[j].stream
                && self.groups@[i].group_id == self.groups@[j].group_id)
        &&& forall|i: int, j: int|
            0 <= i < j < self.filter_results@.len() ==> self.filter_results@[i].filter_id
                != self.filter_results@[j].filter_id
    }

    /// A fresh broker with empty lists and streams.
    pub fn new() -> (r: Broker)
        ensures
            r.wf(),
            r.packet_queue@.len() == 0,
            r.packet_queue_temp@.len() == 0,
            r.dead_letter@.len() == 0,
            r.classifier_queue@.len() == 0,
            forall|p: int| 0 <= p < STREAM_COUNT ==> (#[trigger] r.streams@[p])@.len() == 0,
            r.groups@.len() == 0,
            r.filter_results@.len() == 0,
    {
        let mut streams: Vec<Vec<i64>> = Vec::new();
        streams.push(Vec::new());
        streams.push(Vec::new());
        streams.push(Vec::new());
        Broker {
            packet_queue: Vec::new(),
            packet_queue_temp: Vec::new(),
            dead_letter: Vec::new(),
            classifier_queue: Vec::new(),
            streams,
            groups: Vec::new(),
            filter_results: Vec::new(),
        }
    }

    /// A producer hands the broker one raw packet, at the left.
    pub fn publish_packet(&mut self, bytes: Vec<u8>)
        requires
            old(self).wf(),
        ensures
            final(self).wf(),
            final(self).packet_queue.deep_view() == old(self).packet_queue.deep_view().insert(
                0,
                bytes@,
            ),
            *final(self) == (Broker { packet_queue: final(self).packet_queue, ..*old(self) }),
    {
        self.packet_queue.insert(0, bytes);
        proof {
            assert(self.packet_queue.deep_view() =~= old(self).packet_queue.deep_view().insert(
                0,
                bytes@,
            ));
        }
    }

    /// Atomically move the oldest packet to the in-flight list: the only
    /// way work leaves the packet queue.
    pub fn take_packet(&mut self) -> (r: Option<Vec<u8>>)
        requires
            old(self).wf(),
        ensures
            final(self).wf(),
            match r {
                Some(bytes) => {
                    &&& old(self).packet_queue@.len() > 0
                    &&& bytes@ == old(self).packet_queue.deep_view().last()
                    &&& final(self).packet_queue.deep_view() == old(
                        self,
                    ).packet_queue.deep_view().drop_last()
                    &&& final(self).packet_queue_temp.deep_view() == old(
                        self,
                    ).packet_queue_temp.deep_view().insert(0, bytes@)
                },
                None => {
                    &&& old(self).packet_queue@.len() == 0
                    &&& *final(self) == *old(self)
                },
            },
            *final(self) == (Broker {
                packet_queue: final(self).packet_queue,
                packet_queue_temp: final(self).packet_queue_temp,
                ..*old(self)
            }),
    {
        if self.packet_queue.len() == 0 {
            return None;
        }
        let bytes = self.packet_queue.pop().unwrap();
        let copy = crate::seqtools::copy_vec(&bytes);
        self.packet_queue_temp.insert(0, copy);
        proof {
            assert(self.packet_queue.deep_view() =~= old(
                self,
            ).packet_queue.deep_view().drop_last());
            assert(self.packet_queue_temp.deep_view() =~= old(
                self,
            ).packet_queue_temp.deep_view().insert(0, bytes@));
        }
        Some(bytes)
    }

    /// Drop the in-flight copy of a finished packet, and route the bytes
    /// by their disposition: nowhere on success, back to the packet queue
    /// on a transient failure, to the dead-letter list on a fatal one.
    /// Exactly one copy leaves the in-flight list and at most one copy
    /// appears elsewhere: no packet is silently dropped.
    pub fn finish_packet(&mut self, bytes: &Vec<u8>, disposition: PacketDisposition)
        requires
            old(self).wf(),
            old(self).packet_queue_temp.deep_view().contains(bytes@),
        ensures
            final(self).wf(),
            final(self).packet_queue_temp.deep_view() == remove_first(
                old(self).packet_queue_temp.deep_view(),
                bytes@,
            ),
            disposition != PacketDisposition::Requeue ==> final(self).packet_queue == old(
                self,
            ).packet_queue,
            disposition == PacketDisposition::Requeue ==> final(self).packet_queue.deep_view()
                == old(self).packet_queue.deep_view().insert(0, bytes@),
            disposition != PacketDisposition::DeadLetter ==> final(self).dead_letter == old(
                self,
            ).dead_letter,
            disposition == PacketDisposition::DeadLetter ==> final(self).dead_letter.deep_view()
                == old(self).dead_letter.deep_view().insert(0, bytes@),
            *final(self) == (Broker {
                packet_queue: final(self).packet_queue,
                packet_queue_temp: final(self).packet_queue_temp,
                dead_letter: final(self).dead_letter,
                ..*old(self)
            }),
    {
        let n = self.packet_queue_temp.len();
        let mut idx: usize = n;
        for i in 0..n
            invariant
                n == self.packet_queue_temp@.len(),
                idx <= n,
                idx == n ==> forall|j: int|
                    0 <= j < i ==> self.packet_queue_temp.deep_view()[j] != bytes@,
                idx < n ==> idx < i && self.packet_queue_temp.deep_view()[idx as int] == bytes@
                    && forall|j: int|
                    0 <= j < idx ==> self.packet_queue_temp.deep_view()[j] != bytes@,
        {
            if idx == n && bytes_eq(&self.packet_queue_temp[i], bytes) {
                idx = i;
                proof {
                    assert(self.packet_queue_temp.deep_view()[i as int] == bytes@);
                }
            }
        }
        proof {
            if idx == n {
                assert(!old(self).packet_queue_temp.deep_view().contains(bytes@));
            }
        }
        let _ = self.packet_queue_temp.remove(idx);
        proof {
            lemma_remove_first_at(old(self).packet_queue_temp.deep_view(), bytes@, idx as int);
            assert(self.packet_queue_temp.deep_view() =~= old(
                self,
            ).packet_queue_temp.deep_view().remove(idx as int));
        }
        match disposition {
            PacketDisposition::Done => {},
            PacketDisposition::Requeue => {
                let copy = crate::seqtools::copy_vec(bytes);
                self.packet_queue.insert(0, copy);
                proof {
                    assert(self.packet_queue.deep_view() =~= old(
                        self,
                    ).packet_queue.deep_view().insert(0, bytes@));
                }
            },
            PacketDisposition::DeadLetter => {
                let copy = crate::seqtools::copy_vec(bytes);
                self.dead_letter.insert(0, copy);
                proof {
                    assert(self.dead_letter.deep_view() =~= old(self).dead_letter.deep_view().insert(
                        0,
                        bytes@,
                    ));
                }
            },
        }
    }

    /// On startup, recover every in-flight packet: the whole temp list
    /// moves back to the left of the packet queue, keeping its order, so
    /// nothing a stopped worker held is lost.
    pub fn recover_temp(&mut self)
        requires
            old(self).wf(),
        ensures
            final(self).wf(),
            final(self).packet_queue_temp@.len() == 0,
            final(self).packet_queue.deep_view() == old(self).packet_queue_temp.deep_view() + old(
                self,
            ).packet_queue.deep_view(),
            *final(self) == (Broker {
                packet_queue: final(self).packet_queue,
                packet_queue_temp: final(self).packet_queue_temp,
                ..*old(self)
            }),
    {
        loop
            invariant
                self.wf(),
                old(self).packet_queue_temp.deep_view() + old(self).packet_queue.deep_view()
                    == self.packet_queue_temp.deep_view() + self.packet_queue.deep_view(),
                *self == (Broker {
                    packet_queue: self.packet_queue,
                    packet_queue_temp: self.packet_queue_temp,
                    ..*old(self)
                }),
            decreases self.packet_queue_temp@.len(),
        {
            let m = self.packet_queue_temp.len();
            if m == 0 {
                proof {
                    assert(self.packet_queue_temp.deep_view() + self.packet_queue.deep_view()
                        =~= self.packet_queue.deep_view());
                }
                return ;
            }
            let ghost before_temp = self.packet_queue_temp.deep_view();
            let ghost before_q = self.packet_queue.deep_view();
            let item = self.packet_queue_temp.pop().unwrap();
            self.packet_queue.insert(0, item);
            proof {
                assert(self.packet_queue_temp.deep_view() =~= before_temp.drop_last());
                assert(self.packet_queue.deep_view() =~= before_q.insert(
                    0,
                    before_temp.last(),
                ));
                assert(before_temp.drop_last() + before_q.insert(0, before_temp.last())
                    =~= before_temp + before_q);
            }
        }
    }

    /// Enqueue a candid for classification, at the left.
    pub fn enqueue_classifier(&mut self, candid: i64)
        requires
            old(self).wf(),
        ensures
            final(self).wf(),
            final(self).classifier_queue@ == old(self).classifier_queue@.insert(0, candid),
            *final(self) == (Broker {
                classifier_queue: final(self).classifier_queue,
                ..*old(self)
            }),
    {
        self.classifier_queue.insert(0, candid);
    }

    /// Pop up to `max` candids for classification, oldest first.
    pub fn pop_classifier_batch(&mut self, max: usize) -> (r: Vec<i64>)
        requires
            old(self).wf(),
        ensures
            final(self).wf(),
            r@.len() == vstd::math::min(max as int, old(self).classifier_queue@.len() as int),
            forall|i: int|
                0 <= i < r@.len() ==> r@[i] == old(self).classifier_queue@[old(
                    self,
                ).classifier_queue@.len() - 1 - i],
            final(self).classifier_queue@ == old(self).classifier_queue@.take(
                old(self).classifier_queue@.len() - r@.len(),
            ),
            *final(self) == (Broker {
                classifier_queue: final(self).classifier_queue,
                ..*old(self)
            }),
    {
        let mut out: Vec<i64> = Vec::new();
        while out.len() < max && self.classifier_queue.len() > 0
            invariant
                self.wf(),
                out@.len() <= max,
                out@.len() <= old(self).classifier_queue@.len(),
                self.classifier_queue@ == old(self).classifier_queue@.take(
                    old(self).classifier_queue@.len() - out@.len(),
                ),
                forall|i: int|
                    0 <= i < out@.len() ==> out@[i] == old(self).classifier_queue@[old(
                        self,
                    ).classifier_queue@.len() - 1 - i],
                *self == (Broker {
                    classifier_queue: self.classifier_queue,
                    ..*old(self)
                }),
            decreases self.classifier_queue@.len(),
        {
            let c = self.classifier_queue.pop().unwrap();
            out.push(c);
            proof {
                let total = old(self).classifier_queue@.len();
                assert(self.classifier_queue@ =~= old(self).classifier_queue@.take(
                    total - out@.len(),
                ));
            }
        }
        out
    }

    /// Append a candid to the stream of one permission level.
    pub fn stream_append(&mut self, level: usize, candid: i64)
        requires
            old(self).wf(),
            1 <= level <= STREAM_COUNT,
        ensures
            final(self).wf(),
            final(self).streams@.len() == STREAM_COUNT,
            final(self).streams@[level - 1]@ == old(self).streams@[level - 1]@.push(candid),
            forall|p: int|
                0 <= p < STREAM_COUNT && p != level - 1 ==> final(self).streams@[p] == old(
                    self,
                ).streams@[p],
            final(self).groups@ == old(self).groups@,
            *final(self) == (Broker { streams: final(self).streams, ..*old(self) }),
    {
        let mut stream = self.streams.remove(level - 1);
        stream.push(candid);
        self.streams.insert(level - 1, stream);
        proof {
            assert(self.streams@ =~= old(self).streams@.update(
                level - 1,
                self.streams@[level - 1],
            ));
            assert forall|i: int| 0 <= i < self.groups@.len() implies {
                let g = #[trigger] self.groups@[i];
                &&& 1 <= g.stream <= STREAM_COUNT
                &&& g.offset <= self.streams@[g.stream - 1]@.len()
                &&& g.delivered@ == self.streams@[g.stream - 1]@.take(g.offset as int)
            } by {
                let g = self.groups@[i];
                if g.stream == level {
                    assert(self.streams@[g.stream - 1]@ == old(self).streams@[g.stream
                        - 1]@.push(candid));
                    assert(self.streams@[g.stream - 1]@.take(g.offset as int) =~= old(
                        self,
                    ).streams@[g.stream - 1]@.take(g.offset as int));
                }
            }
        }
    }

    /// Whether a consumer group exists on a stream.
    pub open spec fn has_group(self, level: usize, group_id: i64) -> bool {
        exists|i: int|
            0 <= i < self.groups@.len() && self.groups@[i].stream == level
                && self.groups@[i].group_id == group_id
    }

    /// Ensure a consumer group exists on the stream of `level`, reading
    /// from the beginning when newly created. An existing group is kept
    /// as it is: recreating is not an error.
    pub fn ensure_group(&mut self, level: usize, group_id: i64) -> (created: bool)
        requires
            old(self).wf(),
            1 <= level <= STREAM_COUNT,
        ensures
            final(self).wf(),
            created == !old(self).has_group(level, group_id),
            final(self).has_group(level, group_id),
            created ==> final(self).groups@.len() == old(self).groups@.len() + 1
                && final(self).groups@.drop_last() == old(self).groups@ && {
                let g = final(self).groups@.last();
                g.stream == level && g.group_id == group_id && g.offset == 0
            },
            !created ==> final(self).groups@ == old(self).groups@,
            *final(self) == (Broker { groups: final(self).groups, ..*old(self) }),
    {
        let n = self.groups.len();
        let mut found = false;
        for i in 0..n
            invariant
                n == self.groups@.len(),
                found ==> self.has_group(level, group_id),
                !found ==> forall|j: int|
                    0 <= j < i ==> !(self.groups@[j].stream == level && self.groups@[j].group_id
                        == group_id),
                *self == *old(self),
        {
            if self.groups[i].stream == level && self.groups[i].group_id == group_id {
                found = true;
            }
        }
        if found {
            return false;
        }
        let g = GroupCursor {
            stream: level,
            group_id,
            offset: 0,
            delivered: Ghost(Seq::empty()),
        };
        self.groups.push(g);
        proof {
            let s = self.groups@;
            assert(s[s.len() - 1].stream == level && s[s.len() - 1].group_id == group_id);
            assert(s.drop_last() =~= old(self).groups@);
            assert(self.streams@[level - 1]@.take(0) =~= Seq::<i64>::empty());
        }
        true
    }

    /// Read up to `count` entries the group has not consumed, advancing
    /// its cursor past them: each stream entry is delivered to the group
    /// exactly once, in append order.
    pub fn read_group(&mut self, level: usize, group_id: i64, count: usize) -> (r: Vec<i64>)
        requires
            old(self).wf(),
            1 <= level <= STREAM_COUNT,
            old(self).has_group(level, group_id),
        ensures
            final(self).wf(),
            final(self).has_group(level, group_id),
            exists|i: int|
                {
                    &&& 0 <= i < old(self).groups@.len()
                    &&& (#[trigger] old(self).groups@[i]).stream == level
                    &&& old(self).groups@[i].group_id == group_id
                    &&& {
                        let off = old(self).groups@[i].offset as int;
                        let stream = old(self).streams@[level - 1]@;
                        let k = vstd::math::min(count as int, stream.len() - off);
                        &&& r@ == stream.subrange(off, off + k)
                        &&& final(self).groups@ == old(self).groups@.update(
                            i,
                            GroupCursor {
                                offset: (off + k) as usize,
                                delivered: Ghost(stream.take(off + k)),
                                ..old(self).groups@[i]
                            },
                        )
                        &&& final(self).groups@[i].delivered@ == old(self).groups@[i].delivered@
                            + r@
                    }
                },
            *final(self) == (Broker { groups: final(self).groups, ..*old(self) }),
    {
        let n = self.groups.len();
        let mut idx: usize = n;
        for i in 0..n
            invariant
                n == self.groups@.len(),
                idx <= n,
                idx == n ==> forall|j: int|
                    0 <= j < i ==> !(self.groups@[j].stream == level && self.groups@[j].group_id
                        == group_id),
                idx < n ==> idx < i && self.groups@[idx as int].stream == level
                    && self.groups@[idx as int].group_id == group_id,
        {
            if idx == n && self.groups[i].stream == level && self.groups[i].group_id == group_id {
                idx = i;
            }
        }
        proof {
            if idx == n {
                assert(!old(self).has_group(level, group_id));
            }
        }
        let mut g = self.groups.remove(idx);
        let stream = &self.streams[level - 1];
        let sl = stream.len();
        let avail = sl - g.offset;
        let k = if count < avail {
            count
        } else {
            avail
        };
        let mut out: Vec<i64> = Vec::new();
        for t in 0..k
            invariant
                k <= avail,
                sl == stream@.len(),
                avail == sl - g.offset,
                g.offset + k <= sl,
                stream@ == self.streams@[level - 1]@,
                1 <= level <= STREAM_COUNT,
                self.streams@.len() == STREAM_COUNT,
                out@.len() == t,
                forall|q: int| 0 <= q < t ==> out@[q] == stream@[g.offset + q],
        {
            out.push(stream[g.offset + t]);
        }
        let ghost oldg = g;
        g.offset = g.offset + k;
        proof {
            g.delivered@ = self.streams@[level - 1]@.take(g.offset as int);
        }
        self.groups.insert(idx, g);
        proof {
            let off = oldg.offset as int;
            let st = old(self).streams@[level - 1]@;
            assert(out@ =~= st.subrange(off, off + k));
            assert(st.take(off + k) =~= st.take(off) + st.subrange(off, off + k));
            assert(self.groups@ =~= old(self).groups@.update(idx as int, g));
            assert(oldg == old(self).groups@[idx as int]);
            assert(self.groups@[idx as int].stream == level);
            assert(self.groups@[idx as int].group_id == group_id);
            assert(g == (GroupCursor {
                offset: (off + k) as usize,
                delivered: Ghost(st.take(off + k)),
                ..old(self).groups@[idx as int]
            }));
            assert(oldg.delivered@ == st.take(off));
            assert(g.delivered@ == oldg.delivered@ + out@);
        }
        out
    }

    /// Push serialized result documents onto a filter's output list; the
    /// list is created on first use. A multi-value left push lands the
    /// batch in reverse order ahead of what was there.
    #[verifier::rlimit(60)]
    pub fn push_results(&mut self, filter_id: i64, items: &Vec<Vec<u8>>)
        requires
            old(self).wf(),
        ensures
            final(self).wf(),
            exists|i: int|
                {
                    &&& 0 <= i < final(self).filter_results@.len()
                    &&& (#[trigger] final(self).filter_results@[i]).filter_id == filter_id
                    &&& final(self).filter_results@[i].items.deep_view() == items.deep_view().reverse()
                        + old(self).results_of(filter_id)
                },
            forall|f: i64|
                f != filter_id ==> final(self).results_of(f) == old(self).results_of(f),
            *final(self) == (Broker {
                filter_results: final(self).filter_results,
                ..*old(self)
            }),
    {
        let n = self.filter_results.len();
        let mut idx: usize = n;
        for i in 0..n
            invariant
                n == self.filter_results@.len(),
                idx <= n,
                idx == n ==> forall|j: int| 0 <= j < i ==> self.filter_results@[j].filter_id != filter_id,
                idx < n ==> idx < i && self.filter_results@[idx as int].filter_id == filter_id,
        {
            if idx == n && self.filter_results[i].filter_id == filter_id {
                idx = i;
            }
        }
        if idx == n {
            self.filter_results.push(ResultQueue { filter_id, items: Vec::new() });
        }
        let ghost before = self.filter_results@;
        let ghost bq = self.filter_results@[idx as int].items.deep_view();
        let mut q = self.filter_results.remove(idx);
        let m = items.len();
        assert(q.items.deep_view() =~= items.deep_view().take(0).reverse() + bq);
        for i in 0..m
            invariant
                m == items@.len(),
                q.filter_id == filter_id,
                q.items.deep_view() == items.deep_view().take(i as int).reverse() + bq,
        {
            let copy = crate::seqtools::copy_vec(&items[i]);
            let ghost prev = q.items.deep_view();
            q.items.insert(0, copy);
            proof {
                let cur = q.items.deep_view();
                assert(cur.len() == prev.len() + 1);
                assert(cur[0] == items.deep_view()[i as int]);
                assert(forall|j: int| 1 <= j < cur.len() ==> cur[j] == prev[j - 1]);
                assert(cur =~= items.deep_view().take(i + 1).reverse() + bq);
            }
        }
        self.filter_results.insert(idx, q);
        proof {
            assert(items.deep_view().take(m as int) =~= items.deep_view());
            assert(self.filter_results@ =~= before.update(
                idx as int,
                self.filter_results@[idx as int],
            ));
            let cur = self.filter_results@;
            assert(cur[idx as int].filter_id == filter_id);
            assert(cur[idx as int].items.deep_view() == items.deep_view().reverse() + bq);
            assert(cur.len() == before.len());
            assert(forall|j: int| 0 <= j < before.len() && j != idx ==> cur[j] == before[j]);
            if idx < old(self).filter_results@.len() {
                assert(before == old(self).filter_results@);
            } else {
                assert(before.drop_last() == old(self).filter_results@);
                assert(bq =~= Seq::<Seq<u8>>::empty());
                assert(forall|j: int|
                    0 <= j < old(self).filter_results@.len() ==> before[j] == old(
                        self,
                    ).filter_results@[j]);
            }
            assert(old(self).results_of(filter_id) == bq) by {
                if idx < old(self).filter_results@.len() {
                    assert(old(self).filter_results@[idx as int].filter_id == filter_id);
                    let w = choose|i: int|
                        0 <= i < old(self).filter_results@.len() && old(
                            self,
                        ).filter_results@[i].filter_id == filter_id;
                    if w != idx {
                        assert(old(self).filter_results@[w].filter_id != old(
                            self,
                        ).filter_results@[idx as int].filter_id);
                    }
                } else {
                    assert(forall|i: int|
                        0 <= i < old(self).filter_results@.len() ==> old(
                            self,
                        ).filter_results@[i].filter_id != filter_id);
                }
            }
            assert forall|f: i64| f != filter_id implies self.results_of(f) == old(
                self,
            ).results_of(f) by {
                let oldfr = old(self).filter_results@;
                if exists|i: int| 0 <= i < cur.len() && cur[i].filter_id == f {
                    let i = choose|i: int| 0 <= i < cur.len() && cur[i].filter_id == f;
                    assert(i != idx);
                    assert(cur[i] == before[i]);
                    assert(i < oldfr.len() && oldfr[i].filter_id == f);
                    let w = choose|j: int| 0 <= j < oldfr.len() && oldfr[j].filter_id == f;
                    if w != i {
                        assert(oldfr[w].filter_id != oldfr[i].filter_id);
                    }
                    assert(self.results_of(f) == cur[i].items.deep_view());
                    assert(old(self).results_of(f) == oldfr[i].items.deep_view());
                } else {
                    assert(!exists|i: int| 0 <= i < oldfr.len() && oldfr[i].filter_id == f) by {
                        if exists|i: int| 0 <= i < oldfr.len() && oldfr[i].filter_id == f {
                            let i = choose|i: int| 0 <= i < oldfr.len() && oldfr[i].filter_id == f;
                            assert(before[i].filter_id == f);
                            assert(i != idx);
                            assert(cur[i].filter_id == f);
                        }
                    }
                }
            }
        }
    }

    /// The output list of one filter, as byte strings; empty when the
    /// list was never pushed to.
    pub open spec fn results_of(self, filter_id: i64) -> Seq<Seq<u8>> {
        if exists|i: int|
            0 <= i < self.filter_results@.len() && self.filter_results@[i].filter_id == filter_id {
            let i = choose|i: int|
                0 <= i < self.filter_results@.len() && self.filter_results@[i].filter_id
                    == filter_id;
            self.filter_results@[i].items.deep_view()
        } else {
            Seq::empty()
        }
    }
}

/// The `_alerts_packet_queue` bytes of the packet-queue keys.
pub open spec fn packet_queue_tag() -> Seq<u8> {
    seq![95u8, 97u8, 108u8, 101u8, 114u8, 116u8, 115u8, 95u8, 112u8, 97u8, 99u8, 107u8, 101u8, 116u8, 95u8, 113u8, 117u8, 101u8, 117u8, 101u8]
}

/// The `_temp` bytes of the in-flight list key.
pub open spec fn temp_tag() -> Seq<u8> {
    seq![95u8, 116u8, 101u8, 109u8, 112u8]
}

/// The `_dead_letter` bytes of the dead-letter list key.
pub open spec fn dead_letter_tag() -> Seq<u8> {
    seq![95u8, 100u8, 101u8, 97u8, 100u8, 95u8, 108u8, 101u8, 116u8, 116u8, 101u8, 114u8]
}

/// The `_alerts_classifier_queue` bytes of the classifier-queue key.
pub open spec fn classifier_queue_tag() -> Seq<u8> {
    seq![95u8, 97u8, 108u8, 101u8, 114u8, 116u8, 115u8, 95u8, 99u8, 108u8, 97u8, 115u8, 115u8, 105u8, 102u8, 105u8, 101u8, 114u8, 95u8, 113u8, 117u8, 101u8, 117u8, 101u8]
}

/// The packet-queue key `{stream}_alerts_packet_queue`.
pub fn packet_queue_key(stream: &Vec<u8>) -> (r: Vec<u8>)
    ensures
        r@ == stream@ + packet_queue_tag(),
{
    let mut out = crate::seqtools::copy_vec(stream);
    let tag: [u8; 20] = [95, 97, 108, 101, 114, 116, 115, 95, 112, 97, 99, 107, 101, 116, 95, 113, 117, 101, 117, 101];
    proof {
        assert(tag@ =~= packet_queue_tag());
    }
    crate::fmtnum::push_bytes(&mut out, tag.as_slice());
    out
}

/// The in-flight list key `{stream}_alerts_packet_queue_temp`.
pub fn packet_temp_key(stream: &Vec<u8>) -> (r: Vec<u8>)
    ensures
        r@ == stream@ + packet_queue_tag() + temp_tag(),
{
    let mut out = packet_queue_key(stream);
    let tag: [u8; 5] = [95, 116, 101, 109, 112];
    proof {
        assert(tag@ =~= temp_tag());
    }
    crate::fmtnum::push_bytes(&mut out, tag.as_slice());
    out
}

/// The dead-letter list key `{stream}_alerts_packet_queue_dead_letter`.
pub fn dead_letter_key(stream: &Vec<u8>) -> (r: Vec<u8>)
    ensures
        r@ == stream@ + packet_queue_tag() + dead_letter_tag(),
{
    let mut out = packet_queue_key(stream);
    let tag: [u8; 12] = [95, 100, 101, 97, 100, 95, 108, 101, 116, 116, 101, 114];
    proof {
        assert(tag@ =~= dead_letter_tag());
    }
    crate::fmtnum::push_bytes(&mut out, tag.as_slice());
    out
}

/// The classifier-queue key `{stream}_alerts_classifier_queue`.
pub fn classifier_queue_key(stream: &Vec<u8>) -> (r: Vec<u8>)
    ensures
        r@ == stream@ + classifier_queue_tag(),
{
    let mut out = crate::seqtools::copy_vec(stream);
    let tag: [u8; 24] = [95, 97, 108, 101, 114, 116, 115, 95, 99, 108, 97, 115, 115, 105, 102, 105, 101, 114, 95, 113, 117, 101, 117, 101];
    proof {
        assert(tag@ =~= classifier_queue_tag());
    }
    crate::fmtnum::push_bytes(&mut out, tag.as_slice());
    out
}

/// The caught-up law: once a group's cursor stands at the end of its
/// stream, the group has been handed every entry of the stream, each
/// exactly once, in append order.
pub proof fn lemma_group_caught_up(b: Broker, i: int)
    requires
        b.wf(),
        0 <= i < b.groups@.len(),
        b.groups@[i].offset == b.streams@[b.groups@[i].stream - 1]@.len(),
    ensures
        b.groups@[i].delivered@ == b.streams@[b.groups@[i].stream - 1]@,
{
    let g = b.groups@[i];
    assert(b.streams@[g.stream - 1]@.take(g.offset as int) =~= b.streams@[g.stream - 1]@);
}

} // verus!
