//! The reference transport: one unbounded in-process queue per site.  The
//! sender side holds one outbound queue per peer; the receiver side holds
//! this site's own inbound queue.
use crate::msg_view;
use crate::Msg;
use crate::MsgV;
use crate::Network;
use crate::SiteId;
use vstd::prelude::*;

verus! {

#[verifier::external_type_specification]
#[verifier::external_body]
#[verifier::reject_recursive_types(T)]
pub struct ExSender<T>(crossbeam_channel::Sender<T>);

#[verifier::external_type_specification]
#[verifier::external_body]
#[verifier::reject_recursive_types(T)]
pub struct ExReceiver<T>(crossbeam_channel::Receiver<T>);

/// Relies on `crossbeam_channel::Sender::send`: enqueues one copy of the
/// message, failing only when every receiver of the channel is gone.  The
/// effect lands in another site's inbox, so nothing of it is visible here.
#[verifier::external_body]
fn channel_send(s: &crossbeam_channel::Sender<Msg>, msg: &Msg) -> (r: Result<(), ()>) {
    s.send(msg.clone()).map_err(|_e| ())
}

/// Relies on `crossbeam_channel::Receiver::try_recv`: a non-blocking
/// dequeue that returns a pending message, if there is one right now.
#[verifier::external_body]
fn channel_try_recv(r: &crossbeam_channel::Receiver<Msg>) -> (m: Option<Msg>) {
    r.try_recv().ok()
}

/// The reference `Network`: a fixed outbox per reachable site, one inbox,
/// and the ghost log of everything handed to the transport.
pub struct NetworkImpl {
    outboxes: Vec<(SiteId, crossbeam_channel::Sender<Msg>)>,
    inbox: crossbeam_channel::Receiver<Msg>,
    sent: Ghost<Seq<(u64, MsgV)>>,
}

impl NetworkImpl {
    pub fn new(
        outboxes: Vec<(SiteId, crossbeam_channel::Sender<Msg>)>,
        inbox: crossbeam_channel::Receiver<Msg>,
    ) -> (r: NetworkImpl)
        ensures
            r.peers_spec().len() == outboxes@.len(),
            forall|i: int| 0 <= i < outboxes@.len() ==> r.peers_spec()[i] == outboxes@[i].0,
            r.sent_spec() == Seq::<(u64, MsgV)>::empty(),
    {
        NetworkImpl { outboxes, inbox, sent: Ghost(Seq::empty()) }
    }
}

impl Network for NetworkImpl {
    closed spec fn peers_spec(&self) -> Seq<SiteId> {
        self.outboxes@.map_values(|p: (SiteId, crossbeam_channel::Sender<Msg>)| p.0)
    }

    closed spec fn sent_spec(&self) -> Seq<(u64, MsgV)> {
        self.sent@
    }

    fn peers(&self) -> (r: Vec<SiteId>) {
        let mut r: Vec<SiteId> = Vec::new();
        let mut i: usize = 0;
        while i < self.outboxes.len()
            invariant
                i <= self.outboxes@.len(),
                r@.len() == i,
                forall|j: int| 0 <= j < i ==> r@[j] == self.outboxes@[j].0,
            decreases self.outboxes@.len() - i,
        {
            r.push(self.outboxes[i].0);
            i = i + 1;
        }
        proof {
            assert(r@ =~= self.peers_spec());
        }
        r
    }

    fn send_to(&mut self, msg: &Msg, sid: SiteId) -> (r: Result<(), ()>) {
        let mut i: usize = 0;
        while i < self.outboxes.len()
            invariant
                i <= self.outboxes@.len(),
                *self == *old(self),
            decreases self.outboxes@.len() - i,
        {
            if self.outboxes[i].0.0.bits == sid.0.bits {
                match channel_send(&self.outboxes[i].1, msg) {
                    Ok(_) => {
                        proof {
                            assert(self.outboxes@[i as int].0 == sid);
                            assert(self.peers_spec()[i as int] == sid);
                        }
                        self.sent = Ghost(self.sent@.push((sid@, msg_view(*msg))));
                        return Ok(());
                    },
                    Err(_) => {
                        return Err(());
                    },
                }
            }
            i = i + 1;
        }
        Err(())
    }

    fn try_recv(&mut self) -> (r: Option<Msg>) {
        channel_try_recv(&self.inbox)
    }
}

} // verus!
