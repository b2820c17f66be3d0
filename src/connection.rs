//! The decisions of the serial link's event loop. The loop itself, which
//! reads and writes the port and drains the submission channel, hands this
//! state the bytes it read and the messages it received, and writes back the
//! bytes it is given.

use crate::frame::{copy_range, encode_frame, frame_of, parse_frames, split_frames};
use crate::in_air::{total, DesyncError, Entry, InAirQueue};
use crate::message::{Message, ARDUINO_BUFFER_SIZE};
use std::collections::VecDeque;
use vstd::prelude::*;

verus! {

/// How many of `msgs`, taken in order, are transmitted while `room` bytes of
/// the device's buffer are free: each message that fits uses up its length,
/// and the first one that does not fit stops the walk, so that no later
/// message overtakes it.
pub open spec fn admitted(msgs: Seq<Message>, room: nat) -> nat
    decreases msgs.len(),
{
    if msgs.len() == 0 {
        0
    } else if msgs[0].framed_len() > room {
        0
    } else {
        1 + admitted(msgs.drop_first(), (room - msgs[0].framed_len()) as nat)
    }
}

/// The outbound frames of `msgs`, one after the other.
pub open spec fn frames_of(msgs: Seq<Message>) -> Seq<u8>
    decreases msgs.len(),
{
    if msgs.len() == 0 {
        seq![]
    } else {
        frames_of(msgs.drop_last()) + frame_of(msgs.last().command(), msgs.last().payload())
    }
}

/// The in-flight entries that transmitting `msgs` adds.
pub open spec fn entries_of(msgs: Seq<Message>) -> Seq<Entry> {
    msgs.map_values(|m: Message| (m.framed_len(), m.channel()))
}

/// The state of the link to the device: messages waiting for room in the
/// device's buffer, the messages sent and not yet answered, and the start of
/// a response frame whose rest has not arrived yet.
pub struct Connection {
    in_air_queue: InAirQueue,
    waiting_messages: VecDeque<Message>,
    pending: Vec<u8>,
}

impl Connection {
    /// Messages sent and not yet answered, oldest first.
    pub closed spec fn in_air(&self) -> Seq<Entry> {
        self.in_air_queue@
    }

    /// Messages waiting to be sent, in submission order.
    pub closed spec fn waiting(&self) -> Seq<Message> {
        self.waiting_messages@
    }

    /// Received bytes that do not make a complete response frame yet.
    pub closed spec fn pending(&self) -> Seq<u8> {
        self.pending@
    }

    /// The bookkeeping is consistent, and the messages in flight never
    /// exceed the device's receive buffer.
    pub closed spec fn wf(&self) -> bool {
        &&& self.in_air_queue.wf()
        &&& total(self.in_air_queue@) <= ARDUINO_BUFFER_SIZE
    }

    /// A link with nothing sent, waiting or received.
    pub fn new() -> (r: Connection)
        ensures
            r.wf(),
            r.in_air() == Seq::<Entry>::empty(),
            r.waiting() == Seq::<Message>::empty(),
            r.pending() == Seq::<u8>::empty(),
    {
        Connection {
            in_air_queue: InAirQueue::new(),
            waiting_messages: VecDeque::new(),
            pending: Vec::new(),
        }
    }

    /// Bytes of the device's buffer taken by messages sent and not answered.
    pub fn in_air_size(&self) -> (r: usize)
        requires
            self.wf(),
        ensures
            r == total(self.in_air()),
    {
        self.in_air_queue.size()
    }

    /// Number of messages waiting to be sent.
    pub fn waiting_count(&self) -> (r: usize)
        ensures
            r == self.waiting().len(),
    {
        self.waiting_messages.len()
    }

    /// Takes in newly submitted messages behind those already waiting, then
    /// sends waiting messages in order while each fits the room left in the
    /// device's buffer. Returns the bytes to write to the device.
    pub fn process_messages(&mut self, incoming: Vec<Message>) -> (out: Vec<u8>)
        requires
            old(self).wf(),
        ensures
            final(self).wf(),
            ({
                let all = old(self).waiting() + incoming@;
                let k = admitted(all, (ARDUINO_BUFFER_SIZE - total(old(self).in_air())) as nat) as int;
                &&& out@ == frames_of(all.take(k))
                &&& final(self).waiting() == all.skip(k)
                &&& final(self).in_air() == old(self).in_air() + entries_of(all.take(k))
            }),
            final(self).pending() == old(self).pending(),
    {
        let mut incoming = incoming;
        let ghost all = self.waiting_messages@ + incoming@;
        while incoming.len() > 0
            invariant
                self.waiting_messages@ + incoming@ == all,
                self.wf(),
                self.in_air_queue@ == old(self).in_air_queue@,
                self.pending@ == old(self).pending@,
            decreases incoming@.len(),
        {
            let ghost before = incoming@;
            let m = incoming.remove(0);
            self.waiting_messages.push_back(m);
            assert(self.waiting_messages@ + incoming@ =~= all) by {
                assert(incoming@ =~= before.drop_first());
            }
        }
        assert(self.waiting_messages@ =~= all);
        self.transmit()
    }

    /// Sends waiting messages in order while each fits the room left in the
    /// device's buffer, and records them as in flight. The first message that
    /// does not fit, and every message after it, keeps waiting. Returns the
    /// bytes to write to the device.
    pub fn transmit(&mut self) -> (out: Vec<u8>)
        requires
            old(self).wf(),
        ensures
            final(self).wf(),
            ({
                let w = old(self).waiting();
                let k = admitted(w, (ARDUINO_BUFFER_SIZE - total(old(self).in_air())) as nat) as int;
                &&& out@ == frames_of(w.take(k))
                &&& final(self).waiting() == w.skip(k)
                &&& final(self).in_air() == old(self).in_air() + entries_of(w.take(k))
            }),
            final(self).pending() == old(self).pending(),
    {
        let ghost w = self.waiting_messages@;
        let ghost q0 = self.in_air_queue@;
        let ghost room0 = (ARDUINO_BUFFER_SIZE - total(q0)) as nat;
        let mut remaining: usize = ARDUINO_BUFFER_SIZE - self.in_air_queue.size();
        let mut out: Vec<u8> = Vec::new();
        let ghost mut i: int = 0;
        assert(w.skip(0) =~= w);
        assert(w.take(0) =~= Seq::<Message>::empty());
        assert(entries_of(w.take(0)) =~= Seq::<Entry>::empty());
        assert(q0 + entries_of(w.take(0)) =~= q0);
        loop
            invariant_except_break
                0 <= i <= w.len(),
                self.waiting_messages@ == w.skip(i),
                admitted(w, room0) == i + admitted(w.skip(i), remaining as nat),
            invariant
                self.in_air_queue.wf(),
                total(self.in_air_queue@) + remaining == ARDUINO_BUFFER_SIZE,
                self.in_air_queue@ == q0 + entries_of(w.take(i)),
                out@ == frames_of(w.take(i)),
                self.pending@ == old(self).pending@,
            ensures
                i == admitted(w, room0),
                self.waiting_messages@ == w.skip(i),
            decreases self.waiting_messages@.len(),
        {
            match self.waiting_messages.pop_front() {
                None => {
                    break;
                },
                Some(message) => {
                    let ghost m = message;
                    assert(m == w.skip(i)[0]);
                    let len = message.len();
                    if remaining < len {
                        self.waiting_messages.push_front(message);
                        proof {
                            assert(self.waiting_messages@ =~= w.skip(i));
                        }
                        break;
                    }
                    remaining = remaining - len;
                    let (command, payload, sender) = message.destructure();
                    let ghost q_before = self.in_air_queue@;
                    self.in_air_queue.push(len, sender);
                    encode_frame(&mut out, command, &payload);
                    proof {
                        assert(w.skip(i).drop_first() =~= w.skip(i + 1));
                        assert(w.take(i + 1).drop_last() =~= w.take(i));
                        assert(w.take(i + 1).last() == m);
                        assert(entries_of(w.take(i + 1)) =~= entries_of(w.take(i)).push(
                            (m.framed_len(), m.channel()),
                        ));
                        assert(self.in_air_queue@ =~= q0 + entries_of(w.take(i + 1)));
                        assert(self.in_air_queue@.drop_last() =~= q_before);
                        i = i + 1;
                    }
                },
            }
        }
        out
    }

    /// Takes in bytes read from the device and delivers every response frame
    /// that is now complete to the oldest unanswered message, in order. A
    /// frame cut short is kept until its rest arrives. A frame with no
    /// message waiting for it means the byte stream is out of step with the
    /// messages sent: that is reported and nothing further is parsed.
    pub fn process_responses(&mut self, data: &[u8]) -> (r: Result<(), DesyncError>)
        requires
            old(self).wf(),
        ensures
            final(self).wf(),
            final(self).waiting() == old(self).waiting(),
            ({
                let parsed = parse_frames(old(self).pending() + data@);
                let n = parsed.0.len();
                &&& r is Err <==> n > old(self).in_air().len()
                &&& r is Ok ==> final(self).in_air() == old(self).in_air().skip(n as int)
                    && final(self).pending() == parsed.1
                &&& r is Err ==> final(self).in_air().len() == 0
            }),
    {
        let mut buf: Vec<u8> = Vec::new();
        std::mem::swap(&mut buf, &mut self.pending);
        let mut j: usize = 0;
        while j < data.len()
            invariant
                j <= data@.len(),
                buf@ == old(self).pending@ + data@.subrange(0, j as int),
            decreases data@.len() - j,
        {
            buf.push(data[j]);
            j += 1;
            assert(buf@ =~= old(self).pending@ + data@.subrange(0, j as int));
        }
        assert(data@.subrange(0, data@.len() as int) =~= data@);
        let (frames, consumed) = split_frames(&buf);
        let ghost q0 = self.in_air_queue@;
        let mut i: usize = 0;
        assert(q0.skip(0) =~= q0);
        while i < frames.len()
            invariant
                i <= frames@.len(),
                buf@ == old(self).pending@ + data@,
                frames@.len() == parse_frames(buf@).0.len(),
                i <= q0.len(),
                self.in_air_queue.wf(),
                total(self.in_air_queue@) <= ARDUINO_BUFFER_SIZE,
                self.in_air_queue@ == q0.skip(i as int),
                q0 == old(self).in_air_queue@,
                self.waiting_messages@ == old(self).waiting_messages@,
            decreases frames@.len() - i,
        {
            let ghost q_before = self.in_air_queue@;
            match self.in_air_queue.respond(frames[i].clone()) {
                Ok(()) => {
                    proof {
                        assert(q_before.drop_first() =~= q0.skip(i + 1));
                        crate::in_air::lemma_total_first(q_before);
                    }
                },
                Err(e) => {
                    assert(q0.skip(i as int).len() == q0.len() - i);
                    return Err(e);
                },
            }
            i += 1;
        }
        self.pending = copy_range(&buf, consumed, buf.len());
        assert(buf@.subrange(consumed as int, buf@.len() as int) =~= buf@.skip(consumed as int));
        Ok(())
    }
}

/// Flow control: the messages that one round of transmission sends never
/// take more than the room that was free in the device's buffer; they are
/// the oldest waiting messages, in order; and when one is held back, it is
/// because it does not fit the room that is left, so no later message
/// overtakes it.
pub proof fn lemma_flow_control(w: Seq<Message>, room: nat)
    ensures
        ({
            let k = admitted(w, room) as int;
            &&& 0 <= k <= w.len()
            &&& total(entries_of(w.take(k))) <= room
            &&& w.take(k) + w.skip(k) == w
            &&& k < w.len() ==> w[k].framed_len() > room - total(entries_of(w.take(k)))
        }),
    decreases w.len(),
{
    let k = admitted(w, room) as int;
    if w.len() == 0 || w[0].framed_len() > room {
        assert(entries_of(w.take(0)) =~= Seq::<Entry>::empty());
    } else {
        let len = w[0].framed_len();
        let rest = w.drop_first();
        lemma_flow_control(rest, (room - len) as nat);
        let k1 = admitted(rest, (room - len) as nat) as int;
        assert(k == k1 + 1);
        let es = entries_of(w.take(k));
        let es1 = entries_of(rest.take(k1));
        assert(es.drop_first() =~= es1);
        assert(es[0] == (len, w[0].channel()));
        crate::in_air::lemma_total_first(es);
        if k < w.len() {
            assert(w[k] == rest[k1]);
        }
    }
    assert(w.take(k) + w.skip(k) =~= w);
}

/// Messages leave in the order they were submitted, across rounds: when a
/// round sends the first `k1` of the messages `all` and keeps the rest
/// waiting, and the next round, with `later` submitted meanwhile, sends the
/// first `k2` of what is then waiting, the two rounds together have sent the
/// first `k1 + k2` messages of everything submitted.
pub proof fn lemma_order_kept(all: Seq<Message>, later: Seq<Message>, k1: nat, k2: nat)
    requires
        k1 <= all.len(),
        k2 <= all.len() - k1 + later.len(),
    ensures
        all.take(k1 as int) + (all.skip(k1 as int) + later).take(k2 as int) == (all + later).take(
            (k1 + k2) as int,
        ),
{
    assert(all.take(k1 as int) + (all.skip(k1 as int) + later).take(k2 as int) =~= (all
        + later).take((k1 + k2) as int));
}

} // verus!
