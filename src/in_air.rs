//! Bookkeeping of the commands that were written to the device and not yet
//! answered. The device answers in the order it was written to, so the
//! entries form a FIFO queue.

use crate::channel::send_on;
use std::collections::VecDeque;
use std::sync::mpsc::Sender;
use vstd::prelude::*;

verus! {

/// What the queue knows of one unanswered command: the bytes it occupies
/// in the device's buffer and the channel its response goes to.
pub type Entry = (nat, Sender<Vec<u8>>);

/// Sum of the lengths of `entries`.
pub open spec fn total(entries: Seq<Entry>) -> nat
    decreases entries.len(),
{
    if entries.len() == 0 {
        0
    } else {
        total(entries.drop_last()) + entries.last().0
    }
}

/// The queue after `e` was pushed.
pub open spec fn pushed(q: Seq<Entry>, e: Entry) -> Seq<Entry> {
    q.push(e)
}

/// The queue after its oldest entry was answered.
pub open spec fn answered(q: Seq<Entry>) -> Seq<Entry> {
    q.drop_first()
}

/// The entry that the next response is delivered to: the oldest one.
pub open spec fn next_to_answer(q: Seq<Entry>) -> Entry {
    q[0]
}

/// The queue after each of `es` was pushed, in order.
pub open spec fn push_all(q: Seq<Entry>, es: Seq<Entry>) -> Seq<Entry>
    decreases es.len(),
{
    if es.len() == 0 {
        q
    } else {
        pushed(push_all(q, es.drop_last()), es.last())
    }
}

/// The queue after `j` responses.
pub open spec fn answer_n(q: Seq<Entry>, j: nat) -> Seq<Entry>
    decreases j,
{
    if j == 0 {
        q
    } else {
        answered(answer_n(q, (j - 1) as nat))
    }
}

/// The total of a sequence is its first length plus the total of the rest.
pub proof fn lemma_total_first(entries: Seq<Entry>)
    requires
        entries.len() > 0,
    ensures
        total(entries) == entries[0].0 + total(entries.drop_first()),
    decreases entries.len(),
{
    if entries.len() > 1 {
        lemma_total_first(entries.drop_last());
        assert(entries.drop_last().drop_first() =~= entries.drop_first().drop_last());
    } else {
        assert(entries.drop_first() =~= Seq::<Entry>::empty());
        assert(entries.drop_last() =~= Seq::<Entry>::empty());
    }
}

/// A response arrived while no command was waiting for one: the byte
/// stream no longer lines up with the commands sent.
#[derive(Debug, PartialEq, Eq)]
pub struct DesyncError;

/// A command written to the device whose response has not been processed.
struct InAir {
    /// Bytes the command occupies in the device's receive buffer.
    len: usize,
    /// Where the command's response is delivered.
    sender: Sender<Vec<u8>>,
}

impl InAir {
    fn new(len: usize, sender: Sender<Vec<u8>>) -> (r: InAir)
        ensures
            r.len == len,
            r.sender == sender,
    {
        InAir { len, sender }
    }

    fn len(&self) -> (r: usize)
        ensures
            r == self.len,
    {
        self.len
    }

    /// Sends the response to the command's client. A client that no longer
    /// listens is not an error: reading the response is optional.
    fn respond(self, data: Vec<u8>) {
        let _ = send_on(&self.sender, data);
    }
}

/// The commands written to the device and not yet answered, oldest first,
/// with the running total of their lengths.
pub struct InAirQueue {
    queue: VecDeque<InAir>,
    size: usize,
}

impl View for InAirQueue {
    type V = Seq<Entry>;

    closed spec fn view(&self) -> Seq<Entry> {
        self.queue@.map_values(|e: InAir| (e.len as nat, e.sender))
    }
}

impl InAirQueue {
    /// The running total matches the entries.
    pub closed spec fn wf(&self) -> bool {
        self.size == total(self@)
    }

    /// An empty queue.
    pub fn new() -> (r: InAirQueue)
        ensures
            r.wf(),
            r@ == Seq::<Entry>::empty(),
    {
        let r = InAirQueue { queue: VecDeque::new(), size: 0 };
        assert(r@ =~= Seq::<Entry>::empty());
        r
    }

    /// Records a command of `len` bytes whose response goes to `sender`.
    pub fn push(&mut self, len: usize, sender: Sender<Vec<u8>>)
        requires
            old(self).wf(),
            total(old(self)@) + len <= usize::MAX,
        ensures
            final(self).wf(),
            final(self)@ == pushed(old(self)@, (len as nat, sender)),
    {
        let ghost before = self@;
        self.queue.push_back(InAir::new(len, sender));
        self.size = self.size + len;
        proof {
            let after = self@;
            assert(after =~= before.push((len as nat, sender)));
            assert(after.drop_last() =~= before);
        }
    }

    /// Delivers `response` to the oldest unanswered command
    /// (`next_to_answer`) and drops it from the queue. With no command
    /// waiting, the queue is left as it was and the desynchronisation is
    /// reported.
    pub fn respond(&mut self, response: Vec<u8>) -> (r: Result<(), DesyncError>)
        requires
            old(self).wf(),
        ensures
            final(self).wf(),
            r is Err <==> old(self)@.len() == 0,
            r is Ok ==> final(self)@ == answered(old(self)@),
            r is Err ==> final(self)@ == old(self)@,
    {
        let ghost before = self@;
        match self.queue.pop_front() {
            Some(in_air) => {
                proof {
                    lemma_total_first(before);
                    assert(self@ =~= before.drop_first());
                }
                self.size = self.size - in_air.len();
                in_air.respond(response);
                Ok(())
            },
            None => Err(DesyncError),
        }
    }

    /// Total bytes written to the device and not yet answered.
    pub fn size(&self) -> (r: usize)
        requires
            self.wf(),
        ensures
            r == total(self@),
    {
        self.size
    }
}

/// Responses are matched to commands in the order the commands were pushed:
/// after pushing `es` onto an empty queue and answering `j` of them, the `i`-th
/// answer (for `i < j`) went to the `i`-th entry pushed, the queue holds the
/// `n - j` newest entries, and its size is the sum of their lengths.
pub proof fn lemma_fifo(es: Seq<Entry>, j: nat)
    requires
        j <= es.len(),
    ensures
        push_all(Seq::empty(), es) == es,
        answer_n(es, j) == es.skip(j as int),
        forall|i: nat| i < j ==> next_to_answer(#[trigger] answer_n(es, i)) == es[i as int],
    decreases j,
{
    lemma_push_all(es);
    if j > 0 {
        lemma_fifo(es, (j - 1) as nat);
        assert(es.skip(j - 1).drop_first() =~= es.skip(j as int));
        assert forall|i: nat| i < j implies next_to_answer(#[trigger] answer_n(es, i)) == es[i as int] by {
            if i < j - 1 {
            } else {
                assert(answer_n(es, i) == es.skip(i as int));
            }
        }
    } else {
        assert(es.skip(0) =~= es);
    }
}

proof fn lemma_push_all(es: Seq<Entry>)
    ensures
        push_all(Seq::empty(), es) == es,
    decreases es.len(),
{
    if es.len() > 0 {
        lemma_push_all(es.drop_last());
        assert(es.drop_last().push(es.last()) =~= es);
    }
}

} // verus!
