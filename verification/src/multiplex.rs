//! The state of one multiplexed connection: its role, its lifecycle, the
//! streams that are open on it and what waits in their mailboxes.

use crate::frame::Frame;
use crate::frame::FrameView;
use vstd::prelude::*;

verus! {

/// Which side of the connection this multiplex is. The connector hands out
/// even stream ids, the listener odd ones.
#[derive(Clone, Copy, Debug, PartialEq, Eq, Structural)]
pub enum Role {
    Connector,
    Listener,
}

/// A multiplex is alive, then dying, then dead, and never goes back.
#[derive(Clone, Copy, Debug, PartialEq, Eq, Structural)]
pub enum Lifecycle {
    Alive,
    Dying,
    Dead,
}

/// Why an operation on a stream failed.
#[derive(Clone, Copy, Debug, PartialEq, Eq, Structural)]
pub enum PlexError {
    /// The stream was closed here or by the remote.
    StreamClosed,
    /// The multiplex under the stream is gone.
    MultiplexDead,
    /// A message could not be serialised or deserialised.
    CodecFailed,
}

/// What the reader did with a frame.
#[derive(Debug)]
pub enum Routed {
    /// The payload went to the mailbox of an open stream.
    Delivered,
    /// The frame opened a stream of the remote: it is to be handed to
    /// `accept`. A stream that a close opened is ended from the start.
    Opened(u32),
    /// The mailbox is full. The frame is handed back: the reader waits and
    /// routes it again, it is never dropped.
    Blocked(Frame),
    /// The stream's mailbox was emptied and marked as ended.
    Ended,
    /// The frame names a stream that is no longer open here.
    Discarded,
    /// A probe: a `Pong` is to be queued on the writer.
    Reply,
    /// A reply to a probe: nothing to do but note that the remote lives.
    Noted,
    /// The multiplex is not alive: the reader has stopped.
    Stopped,
}

/// What a `receive` on a stream found.
#[derive(Debug)]
pub enum Received {
    /// The oldest waiting message.
    Message(Vec<u8>),
    /// Nothing waits yet: the caller waits and asks again.
    Pending,
}

/// What the keeper decides at a tick.
#[derive(Clone, Copy, Debug, PartialEq, Eq, Structural)]
pub enum Keeper {
    /// The remote was heard of recently enough: send a `Ping`.
    Probe,
    /// Silence lasted too long, or the multiplex was not alive any more.
    Expired,
}

/// What went wrong on the connection under a multiplex, or on one of its
/// streams.
#[derive(Clone, Copy, Debug, PartialEq, Eq, Structural)]
pub enum Fault {
    /// The secure connection reported an I/O error.
    Io,
    /// A message did not decrypt, or its authentication code did not verify.
    Cryptographic,
    /// A bad frame: an unknown tag or an oversized length.
    ProtocolViolation,
    /// A configured deadline elapsed.
    Timeout,
    /// A message could not be serialised or deserialised.
    CodecFailed,
}

/// The faults that end a multiplex: those of the connection itself. A
/// timeout or a message that the codec refuses concerns one operation only.
pub open spec fn fatal(fault: Fault) -> bool {
    fault is Io || fault is Cryptographic || fault is ProtocolViolation
}

/// One open stream: its id and its mailbox.
#[derive(Debug)]
pub struct Plex {
    id: u32,
    queue: Vec<Vec<u8>>,
    ended: bool,
}

/// A stream as a mathematical value.
pub struct PlexView {
    pub id: u32,
    pub queue: Seq<Seq<u8>>,
    pub ended: bool,
}

impl Plex {
    pub closed spec fn view(&self) -> PlexView {
        PlexView {
            id: self.id,
            queue: self.queue@.map_values(|message: Vec<u8>| message@),
            ended: self.ended,
        }
    }
}

/// The parity of the stream ids that a role hands out.
pub open spec fn parity(role: Role) -> int {
    match role {
        Role::Connector => 0,
        Role::Listener => 1,
    }
}

/// One more than the largest stream id.
pub open spec fn id_space() -> int {
    0x1_0000_0000
}

/// The place of the stream with this id among the open streams, if there is one.
pub open spec fn position(plexes: Seq<PlexView>, id: u32) -> Option<int> {
    if exists|i: int| 0 <= i < plexes.len() && plexes[i].id == id {
        Some(choose|i: int| 0 <= i < plexes.len() && plexes[i].id == id)
    } else {
        None
    }
}

/// No two of the streams share an id.
pub open spec fn distinct_ids(plexes: Seq<PlexView>) -> bool {
    forall|i: int, j: int| 0 <= i < j < plexes.len() ==> plexes[i].id != plexes[j].id
}

/// The streams with every mailbox emptied and marked as ended.
pub open spec fn all_ended(plexes: Seq<PlexView>) -> Seq<PlexView> {
    Seq::new(plexes.len(), |i: int| PlexView { id: plexes[i].id, queue: Seq::empty(), ended: true })
}

/// The lifecycle never moves backwards.
pub open spec fn not_before(earlier: Lifecycle, later: Lifecycle) -> bool {
    match earlier {
        Lifecycle::Alive => true,
        Lifecycle::Dying => later != Lifecycle::Alive,
        Lifecycle::Dead => later == Lifecycle::Dead,
    }
}

/// What becomes of a frame that the reader took from the connection.
pub enum Route {
    /// The payload goes to the mailbox of the stream at this place.
    Delivered(int),
    /// The frame opens a stream of the remote.
    Opened,
    /// The mailbox is full.
    Blocked,
    /// The stream at this place is ended.
    Ended(int),
    Discarded,
    Reply,
    Noted,
    Stopped,
}

/// The stream that a frame is about; 0 for a probe and its reply, which are
/// about none.
pub open spec fn stream_of(frame: FrameView) -> u32 {
    match frame {
        FrameView::Payload { stream_id, bytes } => stream_id,
        FrameView::Close { stream_id } => stream_id,
        _ => 0,
    }
}

/// The stream that a frame opens: a payload opens it with the payload in
/// its mailbox, a close opens it ended, with nothing to receive.
pub open spec fn opened_by(frame: FrameView) -> PlexView {
    match frame {
        FrameView::Payload { stream_id, bytes } => PlexView { id: stream_id, queue: seq![bytes], ended: false },
        _ => PlexView { id: stream_of(frame), queue: Seq::empty(), ended: true },
    }
}

/// The result of `route` says what became of the frame.
pub open spec fn reports(routed: Routed, route: Route, frame: FrameView) -> bool {
    match route {
        Route::Delivered(_) => routed is Delivered,
        Route::Opened => routed == Routed::Opened(stream_of(frame)),
        Route::Blocked => routed is Blocked && routed->Blocked_0@ == frame,
        Route::Ended(_) => routed is Ended,
        Route::Discarded => routed is Discarded,
        Route::Reply => routed is Reply,
        Route::Noted => routed is Noted,
        Route::Stopped => routed is Stopped,
    }
}

/// One step in the life of a mailbox.
pub enum Post {
    /// The reader delivers a message.
    Deliver(Seq<u8>),
    /// The owner of the stream receives; nothing happens on an empty mailbox.
    Receive,
}

/// What waits in a mailbox after the steps, oldest first.
pub open spec fn waiting(posts: Seq<Post>) -> Seq<Seq<u8>>
    decreases posts.len(),
{
    if posts.len() == 0 {
        Seq::empty()
    } else {
        let before = waiting(posts.drop_last());
        match posts.last() {
            Post::Deliver(message) => before.push(message),
            Post::Receive => if before.len() > 0 {
                before.drop_first()
            } else {
                before
            },
        }
    }
}

/// The messages that the steps delivered, in order.
pub open spec fn delivered(posts: Seq<Post>) -> Seq<Seq<u8>>
    decreases posts.len(),
{
    if posts.len() == 0 {
        Seq::empty()
    } else {
        match posts.last() {
            Post::Deliver(message) => delivered(posts.drop_last()).push(message),
            Post::Receive => delivered(posts.drop_last()),
        }
    }
}

/// The messages that the steps handed to the owner, in order.
pub open spec fn received(posts: Seq<Post>) -> Seq<Seq<u8>>
    decreases posts.len(),
{
    if posts.len() == 0 {
        Seq::empty()
    } else {
        let before = waiting(posts.drop_last());
        match posts.last() {
            Post::Deliver(_) => received(posts.drop_last()),
            Post::Receive => if before.len() > 0 {
                received(posts.drop_last()).push(before.first())
            } else {
                received(posts.drop_last())
            },
        }
    }
}

/// What a stream's owner has received is the beginning of what was
/// delivered to the stream, in the same order and with nothing twice: the
/// rest still waits in the mailbox.
pub proof fn lemma_received_is_prefix(posts: Seq<Post>)
    ensures
        delivered(posts) == received(posts) + waiting(posts),
        received(posts).is_prefix_of(delivered(posts)),
    decreases posts.len(),
{
    if posts.len() == 0 {
        assert(delivered(posts) =~= received(posts) + waiting(posts));
    } else {
        lemma_received_is_prefix(posts.drop_last());
        assert(delivered(posts) =~= received(posts) + waiting(posts));
    }
}

/// One secure connection divided into streams.
#[derive(Debug)]
pub struct Multiplex {
    role: Role,
    lifecycle: Lifecycle,
    next_local: u64,
    next_remote: u64,
    depth: usize,
    plexes: Vec<Plex>,
}

impl Multiplex {
    pub closed spec fn role(&self) -> Role {
        self.role
    }

    pub closed spec fn lifecycle(&self) -> Lifecycle {
        self.lifecycle
    }

    /// The id that the next local `connect` hands out; `id_space()` or more
    /// when none is left.
    pub closed spec fn next_local(&self) -> int {
        self.next_local as int
    }

    /// The smallest id of the remote's space that has not opened a stream yet.
    pub closed spec fn next_remote(&self) -> int {
        self.next_remote as int
    }

    /// How many messages a mailbox holds at most.
    pub closed spec fn depth(&self) -> int {
        self.depth as int
    }

    /// The open streams, oldest first.
    pub closed spec fn plexes(&self) -> Seq<PlexView> {
        Seq::new(self.plexes@.len(), |i: int| self.plexes@[i]@)
    }

    /// The invariant of a multiplex.
    pub closed spec fn wf(&self) -> bool {
        &&& self.depth >= 1
        &&& self.next_local as int % 2 == parity(self.role)
        &&& self.next_local as int <= id_space() + 1
        &&& self.next_remote as int % 2 == 1 - parity(self.role)
        &&& self.next_remote as int <= id_space() + 1
        &&& distinct_ids(self.plexes())
        &&& forall|i: int|
            0 <= i < self.plexes().len() ==> {
                let plex = #[trigger] self.plexes()[i];
                &&& plex.queue.len() <= self.depth
                &&& plex.id as int % 2 == parity(self.role) ==> (plex.id as int) < self.next_local
                &&& plex.id as int % 2 != parity(self.role) ==> (plex.id as int) < self.next_remote
                &&& self.lifecycle != Lifecycle::Alive ==> plex.ended && plex.queue.len() == 0
            }
    }

    /// A fresh multiplex on a connection that was just made.
    pub fn new(role: Role, depth: usize) -> (multiplex: Multiplex)
        requires
            depth >= 1,
        ensures
            multiplex.wf(),
            multiplex.role() == role,
            multiplex.lifecycle() == Lifecycle::Alive,
            multiplex.next_local() == parity(role),
            multiplex.next_remote() == 1 - parity(role),
            multiplex.depth() == depth,
            multiplex.plexes() == Seq::<PlexView>::empty(),
    {
        let (next_local, next_remote): (u64, u64) = match role {
            Role::Connector => (0, 1),
            Role::Listener => (1, 0),
        };
        let multiplex = Multiplex {
            role,
            lifecycle: Lifecycle::Alive,
            next_local,
            next_remote,
            depth,
            plexes: Vec::new(),
        };
        assert(multiplex.plexes() =~= Seq::<PlexView>::empty());
        multiplex
    }

    pub fn is_alive(&self) -> (alive: bool)
        ensures
            alive == (self.lifecycle() == Lifecycle::Alive),
    {
        match self.lifecycle {
            Lifecycle::Alive => true,
            _ => false,
        }
    }

    /// The number of streams that are open.
    pub fn plex_count(&self) -> (count: usize)
        ensures
            count == self.plexes().len(),
    {
        self.plexes.len()
    }

    fn find(&self, id: u32) -> (found: Option<usize>)
        requires
            self.wf(),
        ensures
            match found {
                Some(i) => position(self.plexes(), id) == Some(i as int) && i < self.plexes().len()
                    && self.plexes()[i as int].id == id && i < self.plexes@.len(),
                None => position(self.plexes(), id).is_none(),
            },
    {
        let mut i: usize = 0;
        while i < self.plexes.len()
            invariant
                self.wf(),
                i <= self.plexes@.len(),
                self.plexes().len() == self.plexes@.len(),
                forall|j: int| 0 <= j < i ==> self.plexes()[j].id != id,
            decreases self.plexes@.len() - i,
        {
            if self.plexes[i].id == id {
                proof {
                    assert(self.plexes()[i as int].id == id);
                    let chosen = choose|k: int| 0 <= k < self.plexes().len() && self.plexes()[k].id == id;
                    assert(chosen == i) by {
                        if chosen < i {
                            assert(self.plexes()[chosen].id != self.plexes()[i as int].id);
                        } else if chosen > i {
                            assert(self.plexes()[i as int].id != self.plexes()[chosen].id);
                        }
                    }
                }
                return Some(i);
            }
            i += 1;
        }
        None
    }

    /// Opens a stream from this side under the next id of this role. When
    /// the ids of this role are used up the multiplex starts dying.
    pub fn connect(&mut self) -> (opened: Result<u32, PlexError>)
        requires
            old(self).wf(),
        ensures
            final(self).wf(),
            final(self).role() == old(self).role(),
            final(self).depth() == old(self).depth(),
            final(self).next_remote() == old(self).next_remote(),
            not_before(old(self).lifecycle(), final(self).lifecycle()),
            opened.is_ok() <==> old(self).lifecycle() == Lifecycle::Alive && old(self).next_local()
                < id_space(),
            match opened {
                Ok(id) => {
                    &&& id == old(self).next_local()
                    &&& id as int % 2 == parity(old(self).role())
                    &&& forall|i: int|
                        0 <= i < old(self).plexes().len() && (#[trigger] old(self).plexes()[i]).id as int % 2
                            == parity(old(self).role()) ==> old(self).plexes()[i].id < id
                    &&& final(self).next_local() == id + 2
                    &&& final(self).lifecycle() == Lifecycle::Alive
                    &&& final(self).plexes() == old(self).plexes().push(
                        PlexView { id, queue: Seq::empty(), ended: false },
                    )
                    &&& position(old(self).plexes(), id).is_none()
                },
                Err(error) => {
                    &&& error == PlexError::MultiplexDead
                    &&& final(self).next_local() == old(self).next_local()
                    &&& if old(self).lifecycle() == Lifecycle::Alive {
                        &&& final(self).lifecycle() == Lifecycle::Dying
                        &&& final(self).plexes() == all_ended(old(self).plexes())
                    } else {
                        &&& final(self).lifecycle() == old(self).lifecycle()
                        &&& final(self).plexes() == old(self).plexes()
                    }
                },
            },
    {
        if !self.is_alive() {
            return Err(PlexError::MultiplexDead);
        }
        if self.next_local > 0xffff_ffff {
            self.shutdown();
            return Err(PlexError::MultiplexDead);
        }
        let id: u32 = self.next_local as u32;
        proof {
            assert forall|i: int| 0 <= i < self.plexes().len() implies self.plexes()[i].id != id by {
                let plex = self.plexes()[i];
                assert(plex.id as int % 2 == parity(self.role) ==> (plex.id as int) < self.next_local);
            }
        }
        self.next_local = self.next_local + 2;
        self.plexes.push(Plex { id, queue: Vec::new(), ended: false });
        proof {
            let fresh = PlexView { id, queue: Seq::empty(), ended: false };
            assert(self.plexes@.last()@.queue =~= Seq::<Seq<u8>>::empty());
            assert(self.plexes() =~= old(self).plexes().push(fresh));
        }
        Ok(id)
    }

    /// Starts dying: every mailbox is emptied and closed. Does nothing to a
    /// multiplex that is dying or dead already.
    pub fn shutdown(&mut self)
        requires
            old(self).wf(),
        ensures
            final(self).wf(),
            old(self).shut_to(*final(self)),
    {
        if !self.is_alive() {
            return ;
        }
        let mut i: usize = 0;
        while i < self.plexes.len()
            invariant
                i <= self.plexes@.len(),
                self.plexes@.len() == old(self).plexes@.len(),
                self.role == old(self).role,
                self.depth == old(self).depth,
                self.next_local == old(self).next_local,
                self.next_remote == old(self).next_remote,
                self.lifecycle == Lifecycle::Alive,
                forall|j: int| i <= j < self.plexes@.len() ==> self.plexes@[j] == old(self).plexes@[j],
                forall|j: int|
                    0 <= j < i ==> (#[trigger] self.plexes@[j])@ == (PlexView {
                        id: old(self).plexes@[j].id,
                        queue: Seq::empty(),
                        ended: true,
                    }),
            decreases self.plexes@.len() - i,
        {
            let id: u32 = self.plexes[i].id;
            let ended = Plex { id, queue: Vec::new(), ended: true };
            assert(ended@.queue =~= Seq::<Seq<u8>>::empty());
            self.plexes.set(i, ended);
            i += 1;
        }
        self.lifecycle = Lifecycle::Dying;
        proof {
            assert(self.plexes() =~= all_ended(old(self).plexes()));
            assert forall|a: int, b: int| 0 <= a < b < self.plexes().len() implies self.plexes()[a].id
                != self.plexes()[b].id by {
                assert(old(self).plexes()[a].id != old(self).plexes()[b].id);
            }
            assert forall|k: int| 0 <= k < self.plexes().len() implies {
                let plex = #[trigger] self.plexes()[k];
                &&& plex.queue.len() <= self.depth
                &&& plex.id as int % 2 == parity(self.role) ==> (plex.id as int) < self.next_local
                &&& plex.id as int % 2 != parity(self.role) ==> (plex.id as int) < self.next_remote
                &&& plex.ended && plex.queue.len() == 0
            } by {
                let before = old(self).plexes()[k];
                assert(before.id == self.plexes()[k].id);
            }
        }
    }

    /// The end of dying: the multiplex is dead. An alive multiplex is shut
    /// down on the way.
    pub fn bury(&mut self)
        requires
            old(self).wf(),
        ensures
            final(self).wf(),
            final(self).role() == old(self).role(),
            final(self).depth() == old(self).depth(),
            final(self).next_local() == old(self).next_local(),
            final(self).next_remote() == old(self).next_remote(),
            final(self).lifecycle() == Lifecycle::Dead,
            final(self).plexes() == if old(self).lifecycle() == Lifecycle::Alive {
                all_ended(old(self).plexes())
            } else {
                old(self).plexes()
            },
    {
        self.shutdown();
        self.lifecycle = Lifecycle::Dead;
    }

    /// The id is one of the remote's that no frame has opened a stream
    /// with yet, nor any id of the remote above it.
    pub open spec fn unseen(&self, stream_id: u32) -> bool {
        stream_id as int % 2 != parity(self.role()) && stream_id >= self.next_remote()
    }

    /// What becomes of a frame on this multiplex. The first frame on an
    /// unseen id of the remote opens the stream, be it a payload or a close:
    /// a stream that the remote opened and dropped at once is still handed
    /// to `accept`, and its owner finds it closed.
    pub open spec fn classify(&self, frame: FrameView) -> Route {
        if self.lifecycle() != Lifecycle::Alive {
            Route::Stopped
        } else {
            match frame {
                FrameView::Payload { stream_id, bytes } => match position(self.plexes(), stream_id) {
                    Some(i) => if self.plexes()[i].ended {
                        Route::Discarded
                    } else if self.plexes()[i].queue.len() >= self.depth() {
                        Route::Blocked
                    } else {
                        Route::Delivered(i)
                    },
                    None => if self.unseen(stream_id) {
                        Route::Opened
                    } else {
                        Route::Discarded
                    },
                },
                FrameView::Close { stream_id } => match position(self.plexes(), stream_id) {
                    Some(i) => Route::Ended(i),
                    None => if self.unseen(stream_id) {
                        Route::Opened
                    } else {
                        Route::Discarded
                    },
                },
                FrameView::Ping => Route::Reply,
                FrameView::Pong => Route::Noted,
            }
        }
    }

    /// The open streams after a frame was routed.
    pub open spec fn plexes_after(&self, frame: FrameView) -> Seq<PlexView> {
        let plexes = self.plexes();
        match self.classify(frame) {
            Route::Delivered(i) => plexes.update(
                i,
                PlexView {
                    id: plexes[i].id,
                    queue: plexes[i].queue.push(frame->Payload_bytes),
                    ended: false,
                },
            ),
            Route::Opened => plexes.push(opened_by(frame)),
            Route::Ended(i) => plexes.update(
                i,
                PlexView { id: plexes[i].id, queue: Seq::empty(), ended: true },
            ),
            _ => plexes,
        }
    }

    /// `after` is this multiplex once the reader has routed the frame, and
    /// `routed` is what the reader reports.
    pub open spec fn routed_to(&self, after: Multiplex, frame: FrameView, routed: Routed) -> bool {
        &&& after.role() == self.role()
        &&& after.depth() == self.depth()
        &&& after.lifecycle() == self.lifecycle()
        &&& after.next_local() == self.next_local()
        &&& reports(routed, self.classify(frame), frame)
        &&& after.plexes() == self.plexes_after(frame)
        &&& after.next_remote() == if self.classify(frame) is Opened {
            stream_of(frame) + 2
        } else {
            self.next_remote()
        }
    }

    /// `after` is this multiplex once the owner of the stream has asked for
    /// a message, and `received` is what the owner gets: the oldest message
    /// that waits, which leaves the mailbox; on an empty mailbox the word to
    /// wait, or that the stream is closed once it is ended; on a stream that
    /// is not open here that it is closed; on a multiplex that is not alive
    /// that the multiplex is dead.
    pub open spec fn received_from(
        &self,
        after: Multiplex,
        stream_id: u32,
        received: Result<Received, PlexError>,
    ) -> bool {
        &&& after.role() == self.role()
        &&& after.depth() == self.depth()
        &&& after.lifecycle() == self.lifecycle()
        &&& after.next_local() == self.next_local()
        &&& after.next_remote() == self.next_remote()
        &&& if self.lifecycle() != Lifecycle::Alive {
            received == Err::<Received, PlexError>(PlexError::MultiplexDead) && after.plexes() == self.plexes()
        } else {
            match position(self.plexes(), stream_id) {
                None => received == Err::<Received, PlexError>(PlexError::StreamClosed) && after.plexes()
                    == self.plexes(),
                Some(i) => {
                    let plex = self.plexes()[i];
                    if plex.queue.len() > 0 {
                        &&& received is Ok
                        &&& received.unwrap() is Message
                        &&& received.unwrap()->Message_0@ == plex.queue.first()
                        &&& after.plexes() == self.plexes().update(
                            i,
                            PlexView { id: plex.id, queue: plex.queue.drop_first(), ended: plex.ended },
                        )
                    } else {
                        &&& after.plexes() == self.plexes()
                        &&& received == if plex.ended {
                            Err::<Received, PlexError>(PlexError::StreamClosed)
                        } else {
                            Ok::<Received, PlexError>(Received::Pending)
                        }
                    }
                },
            }
        }
    }

    /// The stream is open here and the remote has not closed it.
    pub open spec fn open_for_sending(&self, stream_id: u32) -> bool {
        match position(self.plexes(), stream_id) {
            Some(i) => !self.plexes()[i].ended,
            None => false,
        }
    }

    /// The frame that carries a message on a stream, or why there is none:
    /// the codec could not serialise the message (`None`), the multiplex is
    /// not alive, or the stream is closed, here or by the remote.
    pub open spec fn sent_on(&self, stream_id: u32, encoded: Option<Vec<u8>>) -> Result<Frame, PlexError> {
        match encoded {
            None => Err(PlexError::CodecFailed),
            Some(bytes) => if self.lifecycle() != Lifecycle::Alive {
                Err(PlexError::MultiplexDead)
            } else if !self.open_for_sending(stream_id) {
                Err(PlexError::StreamClosed)
            } else {
                Ok(Frame::Payload { stream_id, bytes })
            },
        }
    }

    /// `after` is this multiplex once the owner has dropped the stream, and
    /// `frame` is the `Close` to send, which there is when the stream was
    /// open on a multiplex that is alive.
    pub open spec fn closed_to(&self, after: Multiplex, stream_id: u32, frame: Option<Frame>) -> bool {
        &&& after.role() == self.role()
        &&& after.depth() == self.depth()
        &&& after.lifecycle() == self.lifecycle()
        &&& after.next_local() == self.next_local()
        &&& after.next_remote() == self.next_remote()
        &&& position(after.plexes(), stream_id).is_none()
        &&& match position(self.plexes(), stream_id) {
            Some(i) => {
                &&& after.plexes() == self.plexes().remove(i)
                &&& frame == if self.lifecycle() == Lifecycle::Alive {
                    Some(Frame::Close { stream_id })
                } else {
                    None
                }
            },
            None => after.plexes() == self.plexes() && frame.is_none(),
        }
    }

    /// `after` is this multiplex once it was shut down: if it was alive it
    /// is dying, with every mailbox emptied and closed; else it is as it was.
    pub open spec fn shut_to(&self, after: Multiplex) -> bool {
        &&& after.role() == self.role()
        &&& after.depth() == self.depth()
        &&& after.next_local() == self.next_local()
        &&& after.next_remote() == self.next_remote()
        &&& not_before(self.lifecycle(), after.lifecycle())
        &&& if self.lifecycle() == Lifecycle::Alive {
            &&& after.lifecycle() == Lifecycle::Dying
            &&& after.plexes() == all_ended(self.plexes())
        } else {
            &&& after.lifecycle() == self.lifecycle()
            &&& after.plexes() == self.plexes()
        }
    }

    /// The reader's step: takes a frame that came over the connection and
    /// puts it where it belongs. A payload goes to the back of its stream's
    /// mailbox, or opens a stream when it carries an id of the remote that
    /// was not seen yet; on a full mailbox the frame is handed back. A close
    /// empties the mailbox and marks it as ended; on an id of the remote that
    /// was not seen yet it opens the stream already ended.
    pub fn route(&mut self, frame: Frame) -> (routed: Routed)
        requires
            old(self).wf(),
        ensures
            final(self).wf(),
            old(self).routed_to(*final(self), frame@, routed),
    {
        if !self.is_alive() {
            return Routed::Stopped;
        }
        match frame {
            Frame::Payload { stream_id, bytes } => {
                match self.find(stream_id) {
                    Some(i) => {
                        if self.plexes[i].ended {
                            Routed::Discarded
                        } else if self.plexes[i].queue.len() >= self.depth {
                            Routed::Blocked(Frame::Payload { stream_id, bytes })
                        } else {
                            let ghost before = self.plexes@[i as int]@;
                            let mut plex = self.plexes.remove(i);
                            plex.queue.push(bytes);
                            proof {
                                assert(plex@.queue =~= before.queue.push(bytes@));
                            }
                            self.plexes.insert(i, plex);
                            proof {
                                assert(self.plexes() =~= old(self).plexes_after(frame@));
                                self.lemma_wf_update(*old(self), i as int);
                            }
                            Routed::Delivered
                        }
                    },
                    None => {
                        if self.is_unseen(stream_id) {
                            let mut queue: Vec<Vec<u8>> = Vec::new();
                            queue.push(bytes);
                            let plex = Plex { id: stream_id, queue, ended: false };
                            proof {
                                assert(plex@.queue =~= seq![bytes@]);
                            }
                            self.open(plex);
                            Routed::Opened(stream_id)
                        } else {
                            Routed::Discarded
                        }
                    },
                }
            },
            Frame::Close { stream_id } => {
                match self.find(stream_id) {
                    Some(i) => {
                        let ended = Plex { id: stream_id, queue: Vec::new(), ended: true };
                        proof {
                            assert(ended@.queue =~= Seq::<Seq<u8>>::empty());
                        }
                        self.plexes.set(i, ended);
                        proof {
                            assert(self.plexes() =~= old(self).plexes_after(frame@));
                            self.lemma_wf_update(*old(self), i as int);
                        }
                        Routed::Ended
                    },
                    None => {
                        if self.is_unseen(stream_id) {
                            let plex = Plex { id: stream_id, queue: Vec::new(), ended: true };
                            proof {
                                assert(plex@.queue =~= Seq::<Seq<u8>>::empty());
                            }
                            self.open(plex);
                            Routed::Opened(stream_id)
                        } else {
                            Routed::Discarded
                        }
                    },
                }
            },
            Frame::Ping => Routed::Reply,
            Frame::Pong => Routed::Noted,
        }
    }

    /// True when the id is an unseen one of the remote.
    fn is_unseen(&self, stream_id: u32) -> (unseen: bool)
        ensures
            unseen == self.unseen(stream_id),
    {
        let remote_parity: u32 = match self.role {
            Role::Connector => 1,
            Role::Listener => 0,
        };
        stream_id % 2 == remote_parity && stream_id as u64 >= self.next_remote
    }

    /// Adds a stream that the remote opened under an unseen id.
    fn open(&mut self, plex: Plex)
        requires
            old(self).wf(),
            old(self).lifecycle() == Lifecycle::Alive,
            old(self).unseen(plex@.id),
            position(old(self).plexes(), plex@.id).is_none(),
            plex@.queue.len() <= 1,
        ensures
            final(self).wf(),
            final(self).role() == old(self).role(),
            final(self).depth() == old(self).depth(),
            final(self).lifecycle() == old(self).lifecycle(),
            final(self).next_local() == old(self).next_local(),
            final(self).next_remote() == plex@.id + 2,
            final(self).plexes() == old(self).plexes().push(plex@),
    {
        let stream_id: u32 = plex.id;
        proof {
            assert forall|j: int| 0 <= j < self.plexes().len() implies self.plexes()[j].id != stream_id by {
                if self.plexes()[j].id == stream_id {
                    assert(position(self.plexes(), stream_id).is_some());
                }
            }
        }
        self.next_remote = stream_id as u64 + 2;
        self.plexes.push(plex);
        proof {
            assert(self.plexes() =~= old(self).plexes().push(plex@));
            assert forall|k: int| 0 <= k < self.plexes().len() implies {
                let plex = #[trigger] self.plexes()[k];
                &&& plex.queue.len() <= self.depth
                &&& plex.id as int % 2 == parity(self.role) ==> (plex.id as int) < self.next_local
                &&& plex.id as int % 2 != parity(self.role) ==> (plex.id as int) < self.next_remote
            } by {
                if k < old(self).plexes().len() {
                    assert(self.plexes()[k] == old(self).plexes()[k]);
                }
            }
            assert forall|a: int, b: int| 0 <= a < b < self.plexes().len() implies self.plexes()[a].id
                != self.plexes()[b].id by {
                if b < old(self).plexes().len() {
                    assert(old(self).plexes()[a].id != old(self).plexes()[b].id);
                } else {
                    assert(old(self).plexes()[a].id != stream_id);
                }
            }
        }
    }

    /// A multiplex stays well-formed when one mailbox changes within its bound.
    proof fn lemma_wf_update(&self, before: Multiplex, i: int)
        requires
            before.wf(),
            self.role == before.role,
            self.lifecycle == before.lifecycle,
            self.lifecycle == Lifecycle::Alive,
            self.next_local == before.next_local,
            self.next_remote == before.next_remote,
            self.depth == before.depth,
            0 <= i < before.plexes().len(),
            self.plexes().len() == before.plexes().len(),
            forall|j: int| 0 <= j < before.plexes().len() && j != i ==> self.plexes()[j] == before.plexes()[j],
            self.plexes()[i].id == before.plexes()[i].id,
            self.plexes()[i].queue.len() <= self.depth,
        ensures
            self.wf(),
    {
        assert forall|a: int, b: int| 0 <= a < b < self.plexes().len() implies self.plexes()[a].id
            != self.plexes()[b].id by {
            assert(before.plexes()[a].id != before.plexes()[b].id);
        }
        assert forall|k: int| 0 <= k < self.plexes().len() implies {
            let plex = #[trigger] self.plexes()[k];
            &&& plex.queue.len() <= self.depth
            &&& plex.id as int % 2 == parity(self.role) ==> (plex.id as int) < self.next_local
            &&& plex.id as int % 2 != parity(self.role) ==> (plex.id as int) < self.next_remote
        } by {
            let old_plex = before.plexes()[k];
            assert(old_plex.id == self.plexes()[k].id);
        }
    }

    /// Takes the oldest message from the mailbox of a stream. A stream that
    /// is not open here, or whose mailbox is ended and empty, is closed; on a
    /// multiplex that is not alive every stream fails.
    pub fn receive(&mut self, stream_id: u32) -> (received: Result<Received, PlexError>)
        requires
            old(self).wf(),
        ensures
            final(self).wf(),
            old(self).received_from(*final(self), stream_id, received),
    {
        if !self.is_alive() {
            return Err(PlexError::MultiplexDead);
        }
        match self.find(stream_id) {
            None => Err(PlexError::StreamClosed),
            Some(i) => {
                if self.plexes[i].queue.len() > 0 {
                    let ghost before = self.plexes@[i as int]@;
                    let mut plex = self.plexes.remove(i);
                    let message = plex.queue.remove(0);
                    proof {
                        assert(plex@.queue =~= before.queue.drop_first());
                        assert(message@ == before.queue.first());
                    }
                    self.plexes.insert(i, plex);
                    proof {
                        assert(self.plexes() =~= old(self).plexes().update(
                            i as int,
                            PlexView { id: before.id, queue: before.queue.drop_first(), ended: before.ended },
                        ));
                        self.lemma_wf_update(*old(self), i as int);
                    }
                    Ok(Received::Message(message))
                } else if self.plexes[i].ended {
                    Err(PlexError::StreamClosed)
                } else {
                    Ok(Received::Pending)
                }
            },
        }
    }

    /// Wraps a message that the codec serialised into the frame that carries
    /// it on a stream; `None` stands for a message that the codec could not
    /// serialise. Fails as well when the multiplex is not alive, or the
    /// stream was closed, here or by the remote.
    pub fn send(&self, stream_id: u32, encoded: Option<Vec<u8>>) -> (frame: Result<Frame, PlexError>)
        requires
            self.wf(),
        ensures
            frame == self.sent_on(stream_id, encoded),
    {
        let bytes = match encoded {
            Some(bytes) => bytes,
            None => {
                return Err(PlexError::CodecFailed);
            },
        };
        if !self.is_alive() {
            return Err(PlexError::MultiplexDead);
        }
        match self.find(stream_id) {
            None => Err(PlexError::StreamClosed),
            Some(i) => if self.plexes[i].ended {
                Err(PlexError::StreamClosed)
            } else {
                Ok(Frame::Payload { stream_id, bytes })
            },
        }
    }

    /// The owner drops a stream: it leaves the multiplex, and on a multiplex
    /// that is alive a `Close` is to be queued on the writer. Closing a
    /// stream that is not open changes nothing.
    pub fn close(&mut self, stream_id: u32) -> (frame: Option<Frame>)
        requires
            old(self).wf(),
        ensures
            final(self).wf(),
            old(self).closed_to(*final(self), stream_id, frame),
    {
        match self.find(stream_id) {
            Some(i) => {
                let _ = self.plexes.remove(i);
                proof {
                    assert(self.plexes() =~= old(self).plexes().remove(i as int));
                    assert forall|a: int, b: int| 0 <= a < b < self.plexes().len() implies self.plexes()[a].id
                        != self.plexes()[b].id by {
                        let from_a = if a < i { a } else { a + 1 };
                        let from_b = if b < i { b } else { b + 1 };
                        assert(old(self).plexes()[from_a].id != old(self).plexes()[from_b].id);
                    }
                    assert forall|k: int| 0 <= k < self.plexes().len() implies self.plexes()[k].id
                        != stream_id by {
                        let from = if k < i { k } else { k + 1 };
                        if from < i {
                            assert(old(self).plexes()[from].id != old(self).plexes()[i as int].id);
                        } else {
                            assert(old(self).plexes()[i as int].id != old(self).plexes()[from].id);
                        }
                    }
                    assert forall|k: int| 0 <= k < self.plexes().len() implies {
                        let plex = #[trigger] self.plexes()[k];
                        &&& plex.queue.len() <= self.depth
                        &&& plex.id as int % 2 == parity(self.role) ==> (plex.id as int) < self.next_local
                        &&& plex.id as int % 2 != parity(self.role) ==> (plex.id as int) < self.next_remote
                        &&& self.lifecycle != Lifecycle::Alive ==> plex.ended && plex.queue.len() == 0
                    } by {
                        let from = if k < i { k } else { k + 1 };
                        let old_plex = old(self).plexes()[from];
                        assert(old_plex == self.plexes()[k]);
                    }
                }
                if self.is_alive() {
                    Some(Frame::Close { stream_id })
                } else {
                    None
                }
            },
            None => None,
        }
    }

    /// Takes note of a fault. A fatal one shuts the multiplex down; any other
    /// leaves it as it is. Says whether the fault was fatal.
    pub fn fault(&mut self, fault: Fault) -> (ended: bool)
        requires
            old(self).wf(),
        ensures
            final(self).wf(),
            ended == fatal(fault),
            final(self).role() == old(self).role(),
            final(self).depth() == old(self).depth(),
            final(self).next_local() == old(self).next_local(),
            final(self).next_remote() == old(self).next_remote(),
            not_before(old(self).lifecycle(), final(self).lifecycle()),
            if fatal(fault) && old(self).lifecycle() == Lifecycle::Alive {
                &&& final(self).lifecycle() == Lifecycle::Dying
                &&& final(self).plexes() == all_ended(old(self).plexes())
            } else {
                &&& final(self).lifecycle() == old(self).lifecycle()
                &&& final(self).plexes() == old(self).plexes()
            },
    {
        match fault {
            Fault::Io | Fault::Cryptographic | Fault::ProtocolViolation => {
                self.shutdown();
                true
            },
            Fault::Timeout | Fault::CodecFailed => false,
        }
    }

    /// The keeper's step at a tick, given for how long nothing came from the
    /// remote and how much silence is allowed. Within the allowance a live
    /// multiplex is probed; else the multiplex is dead from now on.
    pub fn keep(&mut self, silence: u64, silence_timeout: u64) -> (keeper: Keeper)
        requires
            old(self).wf(),
        ensures
            final(self).wf(),
            final(self).role() == old(self).role(),
            final(self).depth() == old(self).depth(),
            final(self).next_local() == old(self).next_local(),
            final(self).next_remote() == old(self).next_remote(),
            not_before(old(self).lifecycle(), final(self).lifecycle()),
            if old(self).lifecycle() == Lifecycle::Alive && silence < silence_timeout {
                &&& keeper == Keeper::Probe
                &&& final(self).lifecycle() == Lifecycle::Alive
                &&& final(self).plexes() == old(self).plexes()
            } else {
                &&& keeper == Keeper::Expired
                &&& final(self).lifecycle() == Lifecycle::Dead
                &&& final(self).plexes() == if old(self).lifecycle() == Lifecycle::Alive {
                    all_ended(old(self).plexes())
                } else {
                    old(self).plexes()
                }
            },
    {
        if self.is_alive() && silence < silence_timeout {
            Keeper::Probe
        } else {
            self.bury();
            Keeper::Expired
        }
    }
}

/// A multiplex leaves `Alive` at most once: over any two steps that do not
/// move backwards, the whole does not move backwards, and what was not
/// alive is not alive afterwards.
pub proof fn lemma_never_revives(first: Lifecycle, second: Lifecycle, third: Lifecycle)
    requires
        not_before(first, second),
        not_before(second, third),
    ensures
        not_before(first, third),
        first != Lifecycle::Alive ==> second != Lifecycle::Alive && third != Lifecycle::Alive,
        first == Lifecycle::Dead ==> third == Lifecycle::Dead,
{
}

/// The ids of the open streams lie below the next id of their side, and the
/// next id of each side has the parity of that side: the ids of a side only
/// rise.
pub proof fn lemma_stream_ids_rise(multiplex: Multiplex, i: int)
    requires
        multiplex.wf(),
        0 <= i < multiplex.plexes().len(),
    ensures
        multiplex.next_local() % 2 == parity(multiplex.role()),
        multiplex.next_remote() % 2 == 1 - parity(multiplex.role()),
        multiplex.plexes()[i].id as int % 2 == parity(multiplex.role()) ==> multiplex.plexes()[i].id
            < multiplex.next_local(),
        multiplex.plexes()[i].id as int % 2 != parity(multiplex.role()) ==> multiplex.plexes()[i].id
            < multiplex.next_remote(),
{
    let plex = multiplex.plexes()[i];
    assert(plex.queue.len() <= multiplex.depth());
}

/// No two open streams of a multiplex share an id.
pub proof fn lemma_stream_ids_unique(multiplex: Multiplex, i: int, j: int)
    requires
        multiplex.wf(),
        0 <= i < multiplex.plexes().len(),
        0 <= j < multiplex.plexes().len(),
        i != j,
    ensures
        multiplex.plexes()[i].id != multiplex.plexes()[j].id,
{
    if i < j {
        assert(multiplex.plexes()[i].id != multiplex.plexes()[j].id);
    } else {
        assert(multiplex.plexes()[j].id != multiplex.plexes()[i].id);
    }
}

} // verus!
