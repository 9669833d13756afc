//! The encoding worker bridge.
//!
//! Producing an embedding is CPU-bound and blocking, so one dedicated,
//! long-lived worker owns the model exclusively; callers reach it only
//! through a bounded mailbox of requests, each with a single-use reply
//! slot. This module is the bridge's state: what is queued, what has
//! been answered, and what each answer owes to its request. The worker
//! serves requests strictly in mailbox order; the embedding itself is
//! produced outside and handed to each serving step, which is therefore
//! verified for every value of it.

use vstd::prelude::*;
use crate::notes::{NoteEntity, NoteModel};

verus! {

/// The failure a caller sees when the bridge is gone: the worker's
/// mailbox is closed, so nothing will be queued or answered.
#[derive(Clone, Copy, PartialEq, Eq, Structural, Debug)]
pub enum WorkerError {
    WorkerUnavailableError,
}

/// A request to the worker.
pub enum RequestMessage {
    /// Encode a note's text fields and attach the embedding to it.
    EncodeNote(NoteEntity),
    /// Encode free-standing text.
    EncodeString(String),
}

/// The ghost shape of a request.
pub enum RequestModel {
    Note(NoteModel),
    Text(Seq<char>),
}

impl View for RequestMessage {
    type V = RequestModel;

    open spec fn view(&self) -> RequestModel {
        match self {
            RequestMessage::EncodeNote(n) => RequestModel::Note(n@),
            RequestMessage::EncodeString(s) => RequestModel::Text(s@),
        }
    }
}

/// A reply from the worker.
pub enum ResponseMessage {
    /// The note, enriched with its embedding.
    NoteEncoded(NoteEntity),
    /// The embedding of the text.
    StringEncoded(Vec<u32>),
}

/// The ghost shape of a reply.
pub enum ResponseModel {
    Note(NoteModel),
    Vector(Seq<u32>),
}

impl View for ResponseMessage {
    type V = ResponseModel;

    open spec fn view(&self) -> ResponseModel {
        match self {
            ResponseMessage::NoteEncoded(n) => ResponseModel::Note(n@),
            ResponseMessage::StringEncoded(v) => ResponseModel::Vector(v@),
        }
    }
}

/// What the worker's reply to a request is, given the embedding the
/// model produced while serving it.
pub open spec fn spec_response(req: RequestModel, embedding: Seq<u32>) -> ResponseModel {
    match req {
        RequestModel::Note(n) => ResponseModel::Note(
            NoteModel { encoded: Some(embedding), ..n },
        ),
        RequestModel::Text(_) => ResponseModel::Vector(embedding),
    }
}

/// Whether a reply is one the request can have produced: the right kind,
/// and for a note, the same note with some embedding attached.
pub open spec fn reply_matches(req: RequestModel, resp: ResponseModel) -> bool {
    match (req, resp) {
        (RequestModel::Note(n), ResponseModel::Note(out)) => exists|e: Seq<u32>|
            out == (NoteModel { encoded: Some(e), ..n }),
        (RequestModel::Text(_), ResponseModel::Vector(_)) => true,
        _ => false,
    }
}

/// What a caller awaiting a reply observes.
pub enum RecvOutcome {
    /// The reply, taken out of its single-use slot.
    Ready(ResponseMessage),
    /// The request is still in the mailbox; the worker has not reached
    /// it.
    Pending,
    /// No reply will ever arrive: the worker is gone, or the slot was
    /// already emptied.
    Unavailable,
}

/// The bridge to the encoding worker: a bounded mailbox of pending
/// requests and the replies already produced, each under the ticket that
/// names its single-use reply slot.
pub struct SentenceEncoderService {
    queue: Vec<(u64, RequestMessage)>,
    replies: Vec<(u64, ResponseMessage)>,
    next_ticket: u64,
    capacity: usize,
    closed: bool,
    history: Ghost<Seq<RequestModel>>,
}

impl SentenceEncoderService {
    /// The pending requests, oldest first.
    pub closed spec fn spec_queue(&self) -> Seq<(u64, RequestModel)> {
        self.queue@.map(|i: int, e: (u64, RequestMessage)| (e.0, e.1@))
    }

    /// The produced, not yet collected replies, oldest first.
    pub closed spec fn spec_replies(&self) -> Seq<(u64, ResponseModel)> {
        self.replies@.map(|i: int, e: (u64, ResponseMessage)| (e.0, e.1@))
    }

    /// Every request ever accepted, by ticket.
    pub closed spec fn spec_history(&self) -> Seq<RequestModel> {
        self.history@
    }

    /// The mailbox capacity: how many requests may be outstanding.
    pub closed spec fn spec_capacity(&self) -> int {
        self.capacity as int
    }

    /// Whether the worker is gone and its mailbox closed.
    pub closed spec fn is_closed(&self) -> bool {
        self.closed
    }

    /// The ticket the next accepted request will get.
    pub closed spec fn spec_next_ticket(&self) -> int {
        self.next_ticket as int
    }

    /// The bridge's invariant: tickets are issued in order; the mailbox
    /// holds each accepted, unserved request under its ticket, within
    /// capacity; every produced reply matches the request its ticket
    /// names; replies are produced in ticket order, and always for
    /// earlier tickets than anything still queued; a closed mailbox
    /// holds nothing.
    pub open spec fn wf(&self) -> bool {
        &&& self.spec_capacity() >= 1
        &&& self.spec_history().len() <= u64::MAX
        &&& self.spec_next_ticket() == self.spec_history().len()
        &&& self.spec_queue().len() <= self.spec_capacity()
        &&& forall|i: int| 0 <= i < self.spec_queue().len() ==> (#[trigger] self.spec_queue()[i]).0
            < self.spec_history().len()
        &&& forall|i: int| 0 <= i < self.spec_queue().len() ==> (#[trigger] self.spec_queue()[i]).1
            == self.spec_history()[self.spec_queue()[i].0 as int]
        &&& forall|i: int, j: int|
            0 <= i < j < self.spec_queue().len() ==> (#[trigger] self.spec_queue()[i]).0 < (
            #[trigger] self.spec_queue()[j]).0
        &&& forall|i: int| 0 <= i < self.spec_replies().len() ==> (
        #[trigger] self.spec_replies()[i]).0 < self.spec_history().len()
        &&& forall|i: int| 0 <= i < self.spec_replies().len() ==> reply_matches(
            self.spec_history()[(#[trigger] self.spec_replies()[i]).0 as int],
            self.spec_replies()[i].1,
        )
        &&& forall|i: int, j: int|
            0 <= i < j < self.spec_replies().len() ==> (#[trigger] self.spec_replies()[i]).0 < (
            #[trigger] self.spec_replies()[j]).0
        &&& forall|i: int, j: int|
            0 <= i < self.spec_replies().len() && 0 <= j < self.spec_queue().len() ==> (
            #[trigger] self.spec_replies()[i]).0 < (#[trigger] self.spec_queue()[j]).0
        &&& (self.is_closed() ==> self.spec_queue().len() == 0)
    }

    /// Opens the bridge with a bounded mailbox.
    pub fn new(capacity: usize) -> (r: Self)
        requires
            capacity >= 1,
        ensures
            r.wf(),
            r.spec_queue().len() == 0,
            r.spec_replies().len() == 0,
            r.spec_history().len() == 0,
            r.spec_capacity() == capacity,
            !r.is_closed(),
    {
        let r = SentenceEncoderService {
            queue: Vec::new(),
            replies: Vec::new(),
            next_ticket: 0,
            capacity,
            closed: false,
            history: Ghost(Seq::empty()),
        };
        proof {
            assert(r.spec_queue() =~= Seq::<(u64, RequestModel)>::empty());
            assert(r.spec_replies() =~= Seq::<(u64, ResponseModel)>::empty());
        }
        r
    }

    /// Whether the mailbox has room for one more request. The real
    /// mailbox makes a sender wait instead; a caller of `send` first
    /// waits until this holds.
    pub fn has_space(&self) -> (r: bool)
        ensures
            r == (self.spec_queue().len() < self.spec_capacity()),
    {
        self.queue.len() < self.capacity
    }

    /// Queues a request and hands back the ticket naming its reply slot.
    /// A closed mailbox — the worker is gone — refuses the request with
    /// `WorkerUnavailableError` instead of failing the caller any
    /// harder.
    pub fn send(&mut self, request: RequestMessage) -> (r: Result<u64, WorkerError>)
        requires
            old(self).wf(),
            !old(self).is_closed() ==> old(self).spec_queue().len() < old(self).spec_capacity(),
            old(self).spec_history().len() < u64::MAX,
        ensures
            final(self).wf(),
            final(self).spec_capacity() == old(self).spec_capacity(),
            final(self).is_closed() == old(self).is_closed(),
            final(self).spec_replies() == old(self).spec_replies(),
            if old(self).is_closed() {
                &&& r == Err::<u64, WorkerError>(WorkerError::WorkerUnavailableError)
                &&& final(self).spec_queue() == old(self).spec_queue()
                &&& final(self).spec_history() == old(self).spec_history()
            } else {
                &&& r == Ok::<u64, WorkerError>(old(self).spec_history().len() as u64)
                &&& final(self).spec_history() == old(self).spec_history().push(request@)
                &&& final(self).spec_queue() == old(self).spec_queue().push(
                    (old(self).spec_history().len() as u64, request@),
                )
            },
    {
        if self.closed {
            return Err(WorkerError::WorkerUnavailableError);
        }
        let ticket = self.next_ticket;
        self.next_ticket = self.next_ticket + 1;
        proof {
            self.history@ = self.history@.push(request@);
        }
        let ghost before = self.spec_queue();
        let ghost req_model = request@;
        self.queue.push((ticket, request));
        proof {
            assert(self.spec_queue() =~= before.push((ticket, req_model)));
            let q = self.spec_queue();
            assert(q.len() == before.len() + 1);
            assert(forall|i: int| 0 <= i < before.len() ==> q[i] == before[i]);
            assert(q[before.len() as int] == (ticket, req_model));
            assert(ticket as int == old(self).spec_history().len());
            assert(forall|i: int| 0 <= i < before.len() ==> (#[trigger] before[i]).0
                < ticket);
            assert(self.spec_history() == old(self).spec_history().push(req_model));
            assert(forall|t: int| 0 <= t < old(self).spec_history().len()
                ==> #[trigger] self.spec_history()[t] == old(self).spec_history()[t]);
            assert(self.spec_history()[ticket as int] == req_model);
            assert(self.replies == old(self).replies);
            assert(self.spec_replies() == old(self).spec_replies());
        }
        Ok(ticket)
    }

    /// One serving step of the worker: it pulls the oldest request — the
    /// mailbox is strictly first-in, first-out — attaches the embedding
    /// the model produced for it, and leaves the reply in that request's
    /// own slot. Returns the served ticket, or nothing when the mailbox
    /// was empty.
    pub fn worker_step(&mut self, embedding: Vec<u32>) -> (r: Option<u64>)
        requires
            old(self).wf(),
        ensures
            final(self).wf(),
            final(self).spec_capacity() == old(self).spec_capacity(),
            final(self).is_closed() == old(self).is_closed(),
            final(self).spec_history() == old(self).spec_history(),
            if old(self).spec_queue().len() == 0 {
                &&& r is None
                &&& final(self).spec_queue() == old(self).spec_queue()
                &&& final(self).spec_replies() == old(self).spec_replies()
            } else {
                &&& r == Some(old(self).spec_queue()[0].0)
                &&& final(self).spec_queue() == old(self).spec_queue().drop_first()
                &&& final(self).spec_replies() == old(self).spec_replies().push(
                    (
                        old(self).spec_queue()[0].0,
                        spec_response(old(self).spec_queue()[0].1, embedding@),
                    ),
                )
            },
    {
        if self.queue.len() == 0 {
            return None;
        }
        let ghost queue_before = self.spec_queue();
        let ghost replies_before = self.spec_replies();
        let (ticket, request) = self.queue.remove(0);
        let response = match request {
            RequestMessage::EncodeNote(n) => ResponseMessage::NoteEncoded(
                n.with_embedding(embedding),
            ),
            RequestMessage::EncodeString(_) => ResponseMessage::StringEncoded(embedding),
        };
        let ghost resp_model = response@;
        self.replies.push((ticket, response));
        proof {
            assert(self.spec_queue() =~= queue_before.drop_first());
            assert(self.spec_replies() =~= replies_before.push((ticket, resp_model)));
            assert(resp_model == spec_response(queue_before[0].1, embedding@));
            assert forall|i: int|
                0 <= i < self.spec_replies().len() implies reply_matches(
                self.spec_history()[(#[trigger] self.spec_replies()[i]).0 as int],
                self.spec_replies()[i].1,
            ) by {
                if i < replies_before.len() {
                } else {
                    let m = queue_before[0].1;
                    match m {
                        RequestModel::Note(n) => {
                            assert(resp_model == ResponseModel::Note(
                                NoteModel { encoded: Some(embedding@), ..n },
                            ));
                        },
                        RequestModel::Text(_) => {},
                    }
                }
            }
        }
        Some(ticket)
    }

    /// What a caller awaiting the ticket's reply observes: the reply,
    /// taken out of its single-use slot, once the worker has produced
    /// it; that the request is still pending; or — the worker gone, or
    /// the slot already emptied — that no reply will ever arrive, so the
    /// caller does not hang.
    pub fn take_reply(&mut self, ticket: u64) -> (r: RecvOutcome)
        requires
            old(self).wf(),
        ensures
            final(self).wf(),
            final(self).spec_capacity() == old(self).spec_capacity(),
            final(self).is_closed() == old(self).is_closed(),
            final(self).spec_history() == old(self).spec_history(),
            final(self).spec_queue() == old(self).spec_queue(),
            ({
                let found = exists|i: int|
                    0 <= i < old(self).spec_replies().len() && (
                    #[trigger] old(self).spec_replies()[i]).0 == ticket;
                if found {
                    let at = choose|i: int|
                        0 <= i < old(self).spec_replies().len() && (
                        #[trigger] old(self).spec_replies()[i]).0 == ticket;
                    match r {
                        RecvOutcome::Ready(resp) => resp@ == old(self).spec_replies()[at].1
                            && final(self).spec_replies() == old(self).spec_replies().remove(at),
                        _ => false,
                    }
                } else {
                    &&& final(self).spec_replies() == old(self).spec_replies()
                    &&& if exists|i: int|
                        0 <= i < old(self).spec_queue().len() && (
                        #[trigger] old(self).spec_queue()[i]).0 == ticket {
                        r is Pending
                    } else {
                        r is Unavailable
                    }
                }
            }),
    {
        let ghost replies_before = self.spec_replies();
        let mut i: usize = 0;
        while i < self.replies.len()
            invariant
                old(self) == self,
                self.wf(),
                replies_before == self.spec_replies(),
                i <= self.spec_replies().len(),
                self.replies@.len() == self.spec_replies().len(),
                forall|k: int| 0 <= k < i ==> (#[trigger] self.spec_replies()[k]).0 != ticket,
            decreases self.spec_replies().len() - i,
        {
            proof {
                assert(self.spec_replies()[i as int] == (
                    self.replies@[i as int].0,
                    self.replies@[i as int].1@,
                ));
            }
            if self.replies[i].0 == ticket {
                proof {
                    assert(replies_before[i as int].0 == ticket);
                    assert forall|k: int|
                        0 <= k < replies_before.len() && (#[trigger] replies_before[k]).0
                            == ticket implies k == i as int by {
                        if k < i as int {
                            assert((replies_before[k]).0 < (replies_before[i as int]).0);
                        } else if k > i as int {
                            assert((replies_before[i as int]).0 < (replies_before[k]).0);
                        }
                    }
                }
                let (_, response) = self.replies.remove(i);
                let ghost resp_model = response@;
                proof {
                    assert(self.spec_replies() =~= replies_before.remove(i as int));
                    let shrunk = self.spec_replies();
                    assert(forall|k: int| 0 <= k < i ==> shrunk[k] == replies_before[k]);
                    assert(forall|k: int| i <= k < shrunk.len() ==> shrunk[k]
                        == replies_before[k + 1]);
                    assert(resp_model == replies_before[i as int].1);
                }
                return RecvOutcome::Ready(response);
            }
            i = i + 1;
        }
        proof {
            assert(forall|k: int| 0 <= k < replies_before.len() ==> (
            #[trigger] replies_before[k]).0 != ticket);
        }
        let mut j: usize = 0;
        while j < self.queue.len()
            invariant
                old(self) == self,
                self.wf(),
                replies_before == self.spec_replies(),
                forall|k: int| 0 <= k < replies_before.len() ==> (
                #[trigger] replies_before[k]).0 != ticket,
                j <= self.spec_queue().len(),
                self.queue@.len() == self.spec_queue().len(),
                forall|k: int| 0 <= k < j ==> (#[trigger] self.spec_queue()[k]).0 != ticket,
            decreases self.spec_queue().len() - j,
        {
            proof {
                assert(self.spec_queue()[j as int] == (
                    self.queue@[j as int].0,
                    self.queue@[j as int].1@,
                ));
            }
            if self.queue[j].0 == ticket {
                return RecvOutcome::Pending;
            }
            j = j + 1;
        }
        RecvOutcome::Unavailable
    }

    /// Terminates the worker: the mailbox closes and every request still
    /// queued is discarded — its reply will never come. Replies already
    /// produced stay in their slots and can still be taken.
    pub fn close(&mut self)
        requires
            old(self).wf(),
        ensures
            final(self).wf(),
            final(self).spec_capacity() == old(self).spec_capacity(),
            final(self).spec_history() == old(self).spec_history(),
            final(self).spec_replies() == old(self).spec_replies(),
            final(self).is_closed(),
            final(self).spec_queue().len() == 0,
    {
        self.closed = true;
        self.queue = Vec::new();
        proof {
            assert(self.spec_queue() =~= Seq::<(u64, RequestModel)>::empty());
            assert(self.replies == old(self).replies);
            assert(self.spec_replies() == old(self).spec_replies());
            assert(self.spec_history() == old(self).spec_history());
        }
    }
}

/// The text the worker hands to the model for a note: its title and body
/// under fixed markers.
pub fn note_encoding_text(note: &NoteEntity) -> (r: String)
    ensures
        r@ == "TITLE: "@ + note@.title + " BODY: "@ + note@.body,
{
    let mut r = String::from_str("TITLE: ");
    r.append(note.title.as_str());
    r.append(" BODY: ");
    r.append(note.body.as_str());
    proof {
        assert(r@ =~= "TITLE: "@ + note@.title + " BODY: "@ + note@.body);
    }
    r
}

/// No reply is ever cross-wired, and replies arrive in submission order:
/// in every reachable bridge state, each produced reply matches the
/// request whose ticket it bears — a note comes back as the same note
/// with an embedding attached — and the replies stand in strictly
/// ascending ticket order, because the single worker serves the mailbox
/// strictly first-in, first-out.
pub proof fn lemma_replies_match_requests(s: SentenceEncoderService)
    requires
        s.wf(),
    ensures
        forall|i: int| 0 <= i < s.spec_replies().len() ==> reply_matches(
            s.spec_history()[(#[trigger] s.spec_replies()[i]).0 as int],
            s.spec_replies()[i].1,
        ),
        forall|i: int, j: int|
            0 <= i < j < s.spec_replies().len() ==> (#[trigger] s.spec_replies()[i]).0 < (
            #[trigger] s.spec_replies()[j]).0,
{
}

/// A terminated worker leaves no caller hanging: once the bridge is
/// closed, no request is pending any more, so a caller awaiting a ticket
/// either takes the reply that was already produced or learns at once
/// that none will come.
pub proof fn lemma_closed_leaves_nothing_pending(s: SentenceEncoderService, ticket: u64)
    requires
        s.wf(),
        s.is_closed(),
    ensures
        s.spec_queue().len() == 0,
        !(exists|i: int|
            0 <= i < s.spec_replies().len() && (#[trigger] s.spec_replies()[i]).0 == ticket)
            ==> !(exists|i: int|
            0 <= i < s.spec_queue().len() && (#[trigger] s.spec_queue()[i]).0 == ticket),
{
}

} // verus!
