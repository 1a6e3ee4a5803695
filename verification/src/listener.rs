//! The accepting side of the plex layer: one multiplex for each secure
//! connection that came in, and one queue of the streams that remotes opened.

use crate::frame::Frame;
use crate::hash::Identity;
use crate::multiplex::Lifecycle;
use crate::multiplex::Multiplex;
use crate::multiplex::PlexError;
use crate::multiplex::PlexView;
use crate::multiplex::Received;
use crate::multiplex::Role;
use crate::multiplex::Routed;
use crate::pool::PlexHandle;
use vstd::prelude::*;

verus! {

/// The listening half of a multiplex, as the listener holds it: the remote
/// at the other end, and the owner's name for the connection.
#[derive(Debug)]
pub struct ListenMultiplex {
    pub identity: Identity,
    pub token: u64,
    pub multiplex: Multiplex,
}

/// A stream that a remote opened.
#[derive(Clone, Copy, Debug, PartialEq, Eq)]
pub struct Accepted {
    pub remote: Identity,
    pub plex: PlexHandle,
}

/// `k` is the first multiplex of the list that goes by the token.
pub open spec fn first_at(list: Seq<ListenMultiplex>, token: u64, k: int) -> bool {
    &&& 0 <= k < list.len()
    &&& list[k].token == token
    &&& forall|j: int| 0 <= j < k ==> (#[trigger] list[j]).token != token
}

/// No multiplex of the list goes by the token.
pub open spec fn none_at(list: Seq<ListenMultiplex>, token: u64) -> bool {
    forall|j: int| 0 <= j < list.len() ==> (#[trigger] list[j]).token != token
}

/// The place of the first multiplex of the list that goes by the token.
pub open spec fn place_at(list: Seq<ListenMultiplex>, token: u64) -> int {
    choose|k: int| first_at(list, token, k)
}

/// The list `after` is `before` but for the multiplex at `k`, which keeps
/// its remote and its token.
pub open spec fn touched(before: Seq<ListenMultiplex>, after: Seq<ListenMultiplex>, k: int) -> bool {
    &&& 0 <= k < before.len() == after.len()
    &&& after[k].identity == before[k].identity
    &&& after[k].token == before[k].token
    &&& forall|j: int| 0 <= j < before.len() && j != k ==> after[j] == before[j]
}

/// The multiplexes of the list that are alive, in their order.
pub open spec fn living(list: Seq<ListenMultiplex>) -> Seq<ListenMultiplex> {
    list.filter(|entry: ListenMultiplex| entry.multiplex.lifecycle() == Lifecycle::Alive)
}

/// Accepts the streams that remotes open on the connections that came in.
#[derive(Debug)]
pub struct PlexListener {
    multiplexes: Vec<ListenMultiplex>,
    pending: Vec<Accepted>,
    depth: usize,
}

impl PlexListener {
    /// The multiplexes, in the order in which their connections came in.
    pub closed spec fn multiplexes(&self) -> Seq<ListenMultiplex> {
        self.multiplexes@
    }

    /// The streams that were opened and not accepted yet, oldest first.
    pub closed spec fn pending(&self) -> Seq<Accepted> {
        self.pending@
    }

    /// How many messages the mailbox of a stream holds at most.
    pub closed spec fn depth(&self) -> int {
        self.depth as int
    }

    /// Every multiplex meets its invariant and is in the role of the listener.
    pub closed spec fn wf(&self) -> bool {
        &&& self.depth >= 1
        &&& forall|j: int|
            0 <= j < self.multiplexes@.len() ==> (#[trigger] self.multiplexes@[j]).multiplex.wf()
                && self.multiplexes@[j].multiplex.role() == Role::Listener
    }

    /// A listener without connections.
    pub fn new(plex_mailbox_depth: usize) -> (listener: PlexListener)
        requires
            plex_mailbox_depth >= 1,
        ensures
            listener.wf(),
            listener.depth() == plex_mailbox_depth,
            listener.multiplexes() == Seq::<ListenMultiplex>::empty(),
            listener.pending() == Seq::<Accepted>::empty(),
    {
        PlexListener { multiplexes: Vec::new(), pending: Vec::new(), depth: plex_mailbox_depth }
    }

    /// A secure connection to `identity` came in and goes by `token`: it
    /// gets a multiplex in the role of the listener.
    pub fn attach(&mut self, identity: Identity, token: u64)
        requires
            old(self).wf(),
        ensures
            final(self).wf(),
            final(self).depth() == old(self).depth(),
            final(self).pending() == old(self).pending(),
            final(self).multiplexes().len() == old(self).multiplexes().len() + 1,
            final(self).multiplexes().drop_last() == old(self).multiplexes(),
            ({
                let fresh = final(self).multiplexes().last();
                &&& fresh.identity == identity
                &&& fresh.token == token
                &&& fresh.multiplex.role() == Role::Listener
                &&& fresh.multiplex.lifecycle() == Lifecycle::Alive
                &&& fresh.multiplex.depth() == old(self).depth()
                &&& fresh.multiplex.next_local() == 1
                &&& fresh.multiplex.next_remote() == 0
                &&& fresh.multiplex.plexes() == Seq::<PlexView>::empty()
            }),
    {
        let multiplex = Multiplex::new(Role::Listener, self.depth);
        self.multiplexes.push(ListenMultiplex { identity, token, multiplex });
        assert(self.multiplexes@.drop_last() =~= old(self).multiplexes@);
    }

    fn find(&self, token: u64) -> (found: Option<usize>)
        ensures
            match found {
                Some(k) => first_at(self.multiplexes(), token, k as int) && place_at(
                    self.multiplexes(),
                    token,
                ) == k && k < self.multiplexes@.len(),
                None => none_at(self.multiplexes(), token),
            },
    {
        let mut k: usize = 0;
        while k < self.multiplexes.len()
            invariant
                k <= self.multiplexes@.len(),
                forall|j: int| 0 <= j < k ==> (#[trigger] self.multiplexes@[j]).token != token,
            decreases self.multiplexes@.len() - k,
        {
            if self.multiplexes[k].token == token {
                proof {
                    let list = self.multiplexes@;
                    assert(first_at(list, token, k as int));
                    let chosen = place_at(list, token);
                    if chosen < k {
                        assert(list[chosen].token != token);
                    } else if chosen > k {
                        assert(list[k as int].token != token);
                    }
                }
                return Some(k);
            }
            k += 1;
        }
        None
    }

    /// The reader of a connection took a frame from it: the frame is routed
    /// on the first multiplex that goes by the token, and a stream that it
    /// opens joins the queue of `accept`. Without such a multiplex the
    /// reader is told to stop.
    pub fn route(&mut self, token: u64, frame: Frame) -> (routed: Routed)
        requires
            old(self).wf(),
        ensures
            final(self).wf(),
            final(self).depth() == old(self).depth(),
            ({
                let list = old(self).multiplexes();
                let now = final(self).multiplexes();
                let k = place_at(list, token);
                if none_at(list, token) {
                    &&& now == list
                    &&& final(self).pending() == old(self).pending()
                    &&& routed is Stopped
                } else {
                    &&& first_at(list, token, k)
                    &&& touched(list, now, k)
                    &&& list[k].multiplex.routed_to(now[k].multiplex, frame@, routed)
                    &&& final(self).pending() == match routed {
                        Routed::Opened(stream_id) => old(self).pending().push(
                            Accepted { remote: list[k].identity, plex: PlexHandle { token, stream_id } },
                        ),
                        _ => old(self).pending(),
                    }
                }
            }),
    {
        let k = match self.find(token) {
            Some(k) => k,
            None => {
                return Routed::Stopped;
            },
        };
        let mut chosen = self.multiplexes.remove(k);
        let routed = chosen.multiplex.route(frame);
        let remote = chosen.identity;
        self.multiplexes.insert(k, chosen);
        match routed {
            Routed::Opened(stream_id) => {
                self.pending.push(Accepted { remote, plex: PlexHandle { token, stream_id } });
                Routed::Opened(stream_id)
            },
            other => other,
        }
    }

    /// The oldest stream that was opened and not accepted yet.
    pub fn accept(&mut self) -> (accepted: Option<Accepted>)
        requires
            old(self).wf(),
        ensures
            final(self).wf(),
            final(self).depth() == old(self).depth(),
            final(self).multiplexes() == old(self).multiplexes(),
            if old(self).pending().len() > 0 {
                accepted == Some(old(self).pending().first()) && final(self).pending() == old(
                    self,
                ).pending().drop_first()
            } else {
                accepted.is_none() && final(self).pending() == old(self).pending()
            },
    {
        if self.pending.len() > 0 {
            let accepted = self.pending.remove(0);
            assert(self.pending@ =~= old(self).pending@.drop_first());
            Some(accepted)
        } else {
            None
        }
    }

    /// The owner of a stream asks for its next message.
    pub fn receive(&mut self, plex: PlexHandle) -> (received: Result<Received, PlexError>)
        requires
            old(self).wf(),
        ensures
            final(self).wf(),
            final(self).depth() == old(self).depth(),
            final(self).pending() == old(self).pending(),
            ({
                let list = old(self).multiplexes();
                let now = final(self).multiplexes();
                let k = place_at(list, plex.token);
                if none_at(list, plex.token) {
                    now == list && received == Err::<Received, PlexError>(PlexError::MultiplexDead)
                } else {
                    &&& first_at(list, plex.token, k)
                    &&& touched(list, now, k)
                    &&& list[k].multiplex.received_from(now[k].multiplex, plex.stream_id, received)
                }
            }),
    {
        let k = match self.find(plex.token) {
            Some(k) => k,
            None => {
                return Err(PlexError::MultiplexDead);
            },
        };
        let mut chosen = self.multiplexes.remove(k);
        let received = chosen.multiplex.receive(plex.stream_id);
        self.multiplexes.insert(k, chosen);
        received
    }

    /// The frame that carries a message on a stream; `None` stands for a
    /// message that the codec could not serialise.
    pub fn send(&self, plex: PlexHandle, encoded: Option<Vec<u8>>) -> (frame: Result<Frame, PlexError>)
        requires
            self.wf(),
        ensures
            ({
                let list = self.multiplexes();
                if encoded.is_none() {
                    frame == Err::<Frame, PlexError>(PlexError::CodecFailed)
                } else if none_at(list, plex.token) {
                    frame == Err::<Frame, PlexError>(PlexError::MultiplexDead)
                } else {
                    &&& first_at(list, plex.token, place_at(list, plex.token))
                    &&& frame == list[place_at(list, plex.token)].multiplex.sent_on(plex.stream_id, encoded)
                }
            }),
    {
        if encoded.is_none() {
            return Err(PlexError::CodecFailed);
        }
        match self.find(plex.token) {
            Some(k) => self.multiplexes[k].multiplex.send(plex.stream_id, encoded),
            None => Err(PlexError::MultiplexDead),
        }
    }

    /// The owner dropped a stream: it leaves its multiplex, and the frame
    /// that comes back, if any, is the `Close` to queue on the writer.
    pub fn release(&mut self, plex: PlexHandle) -> (frame: Option<Frame>)
        requires
            old(self).wf(),
        ensures
            final(self).wf(),
            final(self).depth() == old(self).depth(),
            final(self).pending() == old(self).pending(),
            ({
                let list = old(self).multiplexes();
                let now = final(self).multiplexes();
                let k = place_at(list, plex.token);
                if none_at(list, plex.token) {
                    now == list && frame.is_none()
                } else {
                    &&& first_at(list, plex.token, k)
                    &&& touched(list, now, k)
                    &&& list[k].multiplex.closed_to(now[k].multiplex, plex.stream_id, frame)
                }
            }),
    {
        let k = match self.find(plex.token) {
            Some(k) => k,
            None => {
                return None;
            },
        };
        let mut chosen = self.multiplexes.remove(k);
        let frame = chosen.multiplex.close(plex.stream_id);
        self.multiplexes.insert(k, chosen);
        frame
    }

    /// The connection under a multiplex broke: the first multiplex that goes
    /// by the token is shut down. Says whether there is such a multiplex.
    pub fn fail(&mut self, token: u64) -> (found: bool)
        requires
            old(self).wf(),
        ensures
            final(self).wf(),
            final(self).depth() == old(self).depth(),
            final(self).pending() == old(self).pending(),
            ({
                let list = old(self).multiplexes();
                let now = final(self).multiplexes();
                let k = place_at(list, token);
                &&& found == !none_at(list, token)
                &&& if found {
                    &&& first_at(list, token, k)
                    &&& touched(list, now, k)
                    &&& list[k].multiplex.shut_to(now[k].multiplex)
                } else {
                    now == list
                }
            }),
    {
        let k = match self.find(token) {
            Some(k) => k,
            None => {
                return false;
            },
        };
        let mut chosen = self.multiplexes.remove(k);
        chosen.multiplex.shutdown();
        self.multiplexes.insert(k, chosen);
        true
    }

    /// Drops the multiplexes that are not alive.
    pub fn sweep(&mut self)
        requires
            old(self).wf(),
        ensures
            final(self).wf(),
            final(self).depth() == old(self).depth(),
            final(self).pending() == old(self).pending(),
            final(self).multiplexes() == living(old(self).multiplexes()),
    {
        let ghost before = self.multiplexes@;
        let ghost keep = |entry: ListenMultiplex| entry.multiplex.lifecycle() == Lifecycle::Alive;
        let mut kept: Vec<ListenMultiplex> = Vec::new();
        let mut rest: Vec<ListenMultiplex> = Vec::new();
        std::mem::swap(&mut self.multiplexes, &mut rest);
        let ghost mut done: int = 0;
        proof {
            reveal(Seq::filter);
            assert(before.take(0).filter(keep) =~= Seq::<ListenMultiplex>::empty());
            assert(before.skip(0) =~= before);
        }
        while rest.len() > 0
            invariant
                0 <= done <= before.len(),
                rest@ == before.skip(done),
                kept@ == before.take(done).filter(keep),
                keep == |entry: ListenMultiplex| entry.multiplex.lifecycle() == Lifecycle::Alive,
                forall|j: int|
                    0 <= j < before.len() ==> (#[trigger] before[j]).multiplex.wf() && before[j].multiplex.role()
                        == Role::Listener,
                forall|j: int|
                    0 <= j < kept@.len() ==> (#[trigger] kept@[j]).multiplex.wf() && kept@[j].multiplex.role()
                        == Role::Listener,
            decreases rest@.len(),
        {
            let entry = rest.remove(0);
            proof {
                reveal(Seq::filter);
                assert(entry == before[done]);
                assert(before.take(done + 1).drop_last() =~= before.take(done));
                assert(before.take(done + 1).last() == entry);
                assert(rest@ =~= before.skip(done + 1));
            }
            if entry.multiplex.is_alive() {
                kept.push(entry);
            }
            proof {
                done = done + 1;
            }
        }
        proof {
            assert(before.take(done) =~= before);
        }
        self.multiplexes = kept;
    }
}

/// Every multiplex of a listener meets its invariant and is in the role of
/// the listener: the streams that remotes open on it carry even ids.
pub proof fn lemma_listening_roles(listener: PlexListener, k: int)
    requires
        listener.wf(),
        0 <= k < listener.multiplexes().len(),
    ensures
        listener.multiplexes()[k].multiplex.wf(),
        listener.multiplexes()[k].multiplex.role() == Role::Listener,
{
}

} // verus!
