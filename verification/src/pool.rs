//! The pool of multiplexes that a plex connector keeps for each remote, and
//! the rules by which a new stream is assigned to one of them.

use crate::frame::Frame;
use crate::hash::Identity;
use crate::multiplex::all_ended;
use crate::multiplex::id_space;
use crate::multiplex::parity;
use crate::multiplex::Lifecycle;
use crate::multiplex::Multiplex;
use crate::multiplex::PlexError;
use crate::multiplex::PlexView;
use crate::multiplex::Received;
use crate::multiplex::Routed;
use crate::multiplex::Role;
use vstd::prelude::*;

verus! {

/// The settings of a plex connector.
#[derive(Clone, Copy, Debug)]
pub struct PlexConnectorSettings {
    /// How many multiplexes the pool keeps to one remote at most.
    pub connections_per_remote: usize,
    /// Milliseconds between two keep-alive ticks.
    pub keep_alive_interval: u64,
    /// How many messages the mailbox of a stream holds at most.
    pub plex_mailbox_depth: usize,
}

impl Default for PlexConnectorSettings {
    fn default() -> (settings: PlexConnectorSettings)
        ensures
            settings.connections_per_remote == 8,
            settings.keep_alive_interval == 10_000,
            settings.plex_mailbox_depth == 128,
    {
        PlexConnectorSettings {
            connections_per_remote: 8,
            keep_alive_interval: 10_000,
            plex_mailbox_depth: 128,
        }
    }
}

/// Why a plex connector could not hand out a stream.
#[derive(Clone, Copy, Debug, PartialEq, Eq, Structural)]
pub enum PlexConnectorError {
    /// Connecting to the remote failed.
    ConnectFailed,
}

/// The connecting half of a multiplex, as the pool holds it. The token is
/// the owner's name for the secure connection under it.
#[derive(Debug)]
pub struct ConnectMultiplex {
    pub token: u64,
    pub multiplex: Multiplex,
}

/// The multiplexes to one remote, oldest first.
#[derive(Debug)]
pub struct Remote {
    identity: Identity,
    multiplexes: Vec<ConnectMultiplex>,
}

/// The multiplexes to one remote as a mathematical value.
pub struct RemoteView {
    pub identity: Seq<u8>,
    pub multiplexes: Seq<ConnectMultiplex>,
}

impl Remote {
    pub closed spec fn view(&self) -> RemoteView {
        RemoteView { identity: self.identity@, multiplexes: self.multiplexes@ }
    }
}

/// The name of a stream that was opened: the multiplex it runs on and its
/// id there.
#[derive(Clone, Copy, Debug, PartialEq, Eq, Structural)]
pub struct PlexHandle {
    pub token: u64,
    pub stream_id: u32,
}

/// What `connect` decided.
#[derive(Clone, Copy, Debug, PartialEq, Eq, Structural)]
pub enum Connect {
    /// The remote has fewer multiplexes than allowed: a secure connection is
    /// to be dialled and reported with `dialed`.
    Dial,
    /// The stream was opened on the least-loaded multiplex.
    Opened(PlexHandle),
    /// The least-loaded multiplex has used up its stream ids and is dying
    /// now: the next `connect` will not choose it again.
    Exhausted(u64),
}

pub open spec fn alive(entry: ConnectMultiplex) -> bool {
    entry.multiplex.lifecycle() == Lifecycle::Alive
}

/// The multiplexes that are alive, in their order.
pub open spec fn pruned(list: Seq<ConnectMultiplex>) -> Seq<ConnectMultiplex> {
    list.filter(|entry: ConnectMultiplex| alive(entry))
}

/// The number of open streams on a multiplex.
pub open spec fn load(entry: ConnectMultiplex) -> nat {
    entry.multiplex.plexes().len()
}

/// `k` is the first multiplex of the list with the fewest open streams.
pub open spec fn least_loaded(list: Seq<ConnectMultiplex>, k: int) -> bool {
    &&& 0 <= k < list.len()
    &&& forall|j: int| 0 <= j < list.len() ==> load(list[k]) <= load(#[trigger] list[j])
    &&& forall|j: int| 0 <= j < k ==> load(list[k]) < load(#[trigger] list[j])
}

/// The place of a remote in the pool, if it has one.
pub open spec fn lookup(remotes: Seq<RemoteView>, identity: Seq<u8>) -> Option<int> {
    if exists|i: int| 0 <= i < remotes.len() && remotes[i].identity == identity {
        Some(choose|i: int| 0 <= i < remotes.len() && remotes[i].identity == identity)
    } else {
        None
    }
}

/// The multiplexes that the pool holds to a remote; none for a remote that it
/// does not know.
pub open spec fn multiplexes_to(remotes: Seq<RemoteView>, identity: Seq<u8>) -> Seq<ConnectMultiplex> {
    match lookup(remotes, identity) {
        Some(i) => remotes[i].multiplexes,
        None => Seq::empty(),
    }
}

/// Every multiplex of the list meets its invariant and is in the role of
/// the connector.
pub open spec fn all_wf(list: Seq<ConnectMultiplex>) -> bool {
    forall|j: int|
        0 <= j < list.len() ==> (#[trigger] list[j]).multiplex.wf() && list[j].multiplex.role()
            == Role::Connector
}

/// The tokens of the multiplexes of all remotes, remote by remote.
pub open spec fn tokens(remotes: Seq<RemoteView>) -> Seq<u64>
    decreases remotes.len(),
{
    if remotes.len() == 0 {
        Seq::empty()
    } else {
        tokens(remotes.drop_last()) + remotes.last().multiplexes.map_values(
            |entry: ConnectMultiplex| entry.token,
        )
    }
}

/// Each remote with only its alive multiplexes.
pub open spec fn swept(remotes: Seq<RemoteView>) -> Seq<RemoteView> {
    Seq::new(
        remotes.len(),
        |i: int| RemoteView { identity: remotes[i].identity, multiplexes: pruned(remotes[i].multiplexes) },
    )
}

/// The remotes that have a multiplex, in their order.
pub open spec fn occupied(remotes: Seq<RemoteView>) -> Seq<RemoteView> {
    remotes.filter(|remote: RemoteView| remote.multiplexes.len() > 0)
}

/// Drops the multiplexes that are not alive.
fn prune_dead(list: &mut Vec<ConnectMultiplex>)
    ensures
        final(list)@ == pruned(old(list)@),
        final(list)@.len() <= old(list)@.len(),
        all_wf(old(list)@) ==> all_wf(final(list)@),
{
    let ghost before = list@;
    let ghost keep = |entry: ConnectMultiplex| alive(entry);
    let mut kept: Vec<ConnectMultiplex> = Vec::new();
    let mut rest: Vec<ConnectMultiplex> = Vec::new();
    std::mem::swap(list, &mut rest);
    let ghost mut done: int = 0;
    proof {
        reveal(Seq::filter);
        assert(before.take(0).filter(keep) =~= Seq::<ConnectMultiplex>::empty());
        assert(before.skip(0) =~= before);
    }
    while rest.len() > 0
        invariant
            0 <= done <= before.len(),
            rest@ == before.skip(done),
            kept@ == before.take(done).filter(keep),
            keep == |entry: ConnectMultiplex| alive(entry),
            all_wf(before) ==> all_wf(kept@),
        decreases rest@.len(),
    {
        let entry = rest.remove(0);
        proof {
            reveal(Seq::filter);
            assert(entry == before[done]);
            assert(before.take(done + 1).drop_last() =~= before.take(done));
            assert(before.take(done + 1).last() == entry);
            assert(rest@ =~= before.skip(done + 1));
            before.take(done).lemma_filter_len(keep);
        }
        if entry.multiplex.is_alive() {
            kept.push(entry);
        }
        proof {
            done = done + 1;
        }
    }
    proof {
        assert(before.take(done) =~= before);
        before.lemma_filter_len(keep);
    }
    std::mem::swap(list, &mut kept);
}

/// The place of the first multiplex with the fewest open streams.
fn pick_least_loaded(list: &Vec<ConnectMultiplex>) -> (k: usize)
    requires
        list@.len() > 0,
    ensures
        least_loaded(list@, k as int),
{
    let mut k: usize = 0;
    let mut fewest: usize = list[0].multiplex.plex_count();
    let mut i: usize = 1;
    while i < list.len()
        invariant
            1 <= i <= list@.len(),
            k < i,
            fewest == load(list@[k as int]),
            forall|j: int| 0 <= j < i ==> load(list@[k as int]) <= load(#[trigger] list@[j]),
            forall|j: int| 0 <= j < k ==> load(list@[k as int]) < load(#[trigger] list@[j]),
        decreases list@.len() - i,
    {
        let count: usize = list[i].multiplex.plex_count();
        if count < fewest {
            k = i;
            fewest = count;
        }
        i += 1;
    }
    k
}

/// The multiplexes of every remote that the connector talks to.
#[derive(Debug)]
pub struct Pool {
    remotes: Vec<Remote>,
}

impl Pool {
    /// The remotes of the pool, in the order in which they were first asked for.
    pub closed spec fn remotes(&self) -> Seq<RemoteView> {
        Seq::new(self.remotes@.len(), |i: int| self.remotes@[i]@)
    }

    /// No remote stands twice in the pool, and every multiplex meets its invariant.
    pub closed spec fn wf(&self) -> bool {
        &&& forall|i: int, j: int|
            0 <= i < j < self.remotes().len() ==> self.remotes()[i].identity != self.remotes()[j].identity
        &&& forall|i: int| 0 <= i < self.remotes().len() ==> all_wf((#[trigger] self.remotes()[i]).multiplexes)
    }

    pub fn new() -> (pool: Pool)
        ensures
            pool.wf(),
            pool.remotes() == Seq::<RemoteView>::empty(),
    {
        let pool = Pool { remotes: Vec::new() };
        assert(pool.remotes() =~= Seq::<RemoteView>::empty());
        pool
    }

    /// The place of the remote's list in the pool; an empty list is added
    /// for a remote that the pool does not know yet.
    pub fn get_multiplexes(&mut self, remote: Identity) -> (place: usize)
        requires
            old(self).wf(),
        ensures
            final(self).wf(),
            lookup(final(self).remotes(), remote@) == Some(place as int),
            place < final(self).remotes().len(),
            match lookup(old(self).remotes(), remote@) {
                Some(i) => final(self).remotes() == old(self).remotes(),
                None => final(self).remotes() == old(self).remotes().push(
                    RemoteView { identity: remote@, multiplexes: Seq::empty() },
                ),
            },
    {
        let mut i: usize = 0;
        while i < self.remotes.len()
            invariant
                self.wf(),
                *self == *old(self),
                i <= self.remotes@.len(),
                self.remotes().len() == self.remotes@.len(),
                forall|j: int| 0 <= j < i ==> self.remotes()[j].identity != remote@,
            decreases self.remotes@.len() - i,
        {
            if self.remotes[i].identity.same(&remote) {
                proof {
                    assert(self.remotes()[i as int].identity == remote@);
                    self.lemma_lookup(remote@, i as int);
                }
                return i;
            }
            i += 1;
        }
        self.remotes.push(Remote { identity: remote, multiplexes: Vec::new() });
        proof {
            let fresh = RemoteView { identity: remote@, multiplexes: Seq::empty() };
            assert(self.remotes() =~= old(self).remotes().push(fresh));
            assert(self.remotes()[i as int].identity == remote@);
            assert(self.wf());
            self.lemma_lookup(remote@, i as int);
        }
        i
    }

    /// The number of remotes in the pool.
    pub fn len(&self) -> (count: usize)
        ensures
            count == self.remotes().len(),
    {
        self.remotes.len()
    }

    /// Drops the remotes that have no multiplex.
    pub fn prune(&mut self)
        requires
            old(self).wf(),
        ensures
            final(self).wf(),
            final(self).remotes() == occupied(old(self).remotes()),
    {
        let ghost before = self.remotes();
        let ghost keep = |remote: RemoteView| remote.multiplexes.len() > 0;
        let mut kept: Vec<Remote> = Vec::new();
        let mut rest: Vec<Remote> = Vec::new();
        std::mem::swap(&mut self.remotes, &mut rest);
        let ghost mut done: int = 0;
        proof {
            reveal(Seq::filter);
            assert(before.take(0).filter(keep) =~= Seq::<RemoteView>::empty());
        }
        while rest.len() > 0
            invariant
                0 <= done <= before.len(),
                old(self).wf(),
                before == old(self).remotes(),
                rest@.len() == before.len() - done,
                forall|j: int| 0 <= j < rest@.len() ==> (#[trigger] rest@[j])@ == before[done + j],
                kept@.len() <= done,
                Seq::new(kept@.len(), |i: int| kept@[i]@) == before.take(done).filter(keep),
                keep == |remote: RemoteView| remote.multiplexes.len() > 0,
                forall|a: int, b: int|
                    0 <= a < b < kept@.len() ==> (#[trigger] kept@[a])@.identity != (#[trigger] kept@[b])@.identity,
                forall|a: int, j: int|
                    0 <= a < kept@.len() && done <= j < before.len() ==> (#[trigger] kept@[a])@.identity
                        != (#[trigger] before[j]).identity,
                forall|a: int| 0 <= a < kept@.len() ==> all_wf((#[trigger] kept@[a])@.multiplexes),
            decreases rest@.len(),
        {
            let ghost kept_before = kept@;
            let remote = rest.remove(0);
            proof {
                reveal(Seq::filter);
                assert(remote@ == before[done]);
                assert(before.take(done + 1).drop_last() =~= before.take(done));
                assert(before.take(done + 1).last() == remote@);
                assert(all_wf(old(self).remotes()[done].multiplexes));
                assert forall|a: int| 0 <= a < kept@.len() implies (#[trigger] kept@[a])@.identity
                    != remote@.identity by {
                    assert(kept@[a]@.identity != before[done].identity);
                }
                assert forall|y: int| done + 1 <= y < before.len() implies before[done].identity
                    != (#[trigger] before[y]).identity by {
                    assert(old(self).remotes()[done].identity != old(self).remotes()[y].identity);
                }
            }
            if remote.multiplexes.len() > 0 {
                kept.push(remote);
                proof {
                    assert(Seq::new(kept@.len(), |i: int| kept@[i]@) =~= Seq::new(
                        kept_before.len(),
                        |i: int| kept_before[i]@,
                    ).push(remote@));
                }
            }
            proof {
                done = done + 1;
            }
        }
        proof {
            assert(before.take(done) =~= before);
        }
        self.remotes = kept;
        proof {
            assert(self.remotes() =~= occupied(before));
        }
    }

    /// In a pool without doubles the remote stands where it is found.
    proof fn lemma_lookup(&self, identity: Seq<u8>, i: int)
        requires
            self.wf(),
            0 <= i < self.remotes().len(),
            self.remotes()[i].identity == identity,
        ensures
            lookup(self.remotes(), identity) == Some(i),
    {
        let chosen = choose|k: int| 0 <= k < self.remotes().len() && self.remotes()[k].identity == identity;
        if chosen < i {
            assert(self.remotes()[chosen].identity != self.remotes()[i].identity);
        } else if chosen > i {
            assert(self.remotes()[i].identity != self.remotes()[chosen].identity);
        }
    }
}

/// The first least-loaded multiplex of a list.
pub open spec fn first_least_loaded(list: Seq<ConnectMultiplex>) -> int {
    choose|k: int| least_loaded(list, k)
}

/// A list has one first least-loaded multiplex only.
pub proof fn lemma_least_loaded_unique(list: Seq<ConnectMultiplex>, k: int)
    requires
        least_loaded(list, k),
    ensures
        first_least_loaded(list) == k,
{
    let chosen = first_least_loaded(list);
    if chosen < k {
        assert(load(list[k]) < load(list[chosen]));
        assert(load(list[chosen]) <= load(list[k]));
    } else if chosen > k {
        assert(load(list[chosen]) < load(list[k]));
        assert(load(list[k]) <= load(list[chosen]));
    }
}

/// Role, mailbox depth and the ids seen from the remote are the same.
pub open spec fn same_setup(before: Multiplex, after: Multiplex) -> bool {
    &&& after.role() == before.role()
    &&& after.depth() == before.depth()
    &&& after.next_remote() == before.next_remote()
}

/// The list `after` is `before` with a stream opened on its multiplex `k`.
pub open spec fn opened_on(
    before: Seq<ConnectMultiplex>,
    after: Seq<ConnectMultiplex>,
    k: int,
    plex: PlexHandle,
) -> bool {
    &&& 0 <= k < before.len() == after.len()
    &&& forall|j: int| 0 <= j < before.len() && j != k ==> after[j] == before[j]
    &&& plex.token == before[k].token == after[k].token
    &&& same_setup(before[k].multiplex, after[k].multiplex)
    &&& plex.stream_id == before[k].multiplex.next_local()
    &&& plex.stream_id as int % 2 == parity(before[k].multiplex.role())
    &&& forall|i: int|
        0 <= i < before[k].multiplex.plexes().len() && (#[trigger] before[k].multiplex.plexes()[i]).id as int
            % 2 == parity(before[k].multiplex.role()) ==> before[k].multiplex.plexes()[i].id < plex.stream_id
    &&& after[k].multiplex.next_local() == plex.stream_id + 2
    &&& after[k].multiplex.lifecycle() == Lifecycle::Alive
    &&& after[k].multiplex.plexes() == before[k].multiplex.plexes().push(
        PlexView { id: plex.stream_id, queue: Seq::empty(), ended: false },
    )
}

/// The list `after` is `before` with its multiplex `k`, which was alive,
/// dying.
pub open spec fn dying_on(before: Seq<ConnectMultiplex>, after: Seq<ConnectMultiplex>, k: int) -> bool {
    &&& 0 <= k < before.len() == after.len()
    &&& forall|j: int| 0 <= j < before.len() && j != k ==> after[j] == before[j]
    &&& before[k].token == after[k].token
    &&& same_setup(before[k].multiplex, after[k].multiplex)
    &&& after[k].multiplex.next_local() == before[k].multiplex.next_local()
    &&& after[k].multiplex.lifecycle() == Lifecycle::Dying
    &&& after[k].multiplex.plexes() == all_ended(before[k].multiplex.plexes())
}

/// The remotes `after` are `before` but for the list of the remote at `place`.
pub open spec fn same_but(before: Seq<RemoteView>, after: Seq<RemoteView>, place: int) -> bool {
    &&& 0 <= place < before.len() == after.len()
    &&& after[place].identity == before[place].identity
    &&& forall|i: int| 0 <= i < before.len() && i != place ==> after[i] == before[i]
}

/// The remotes with an empty list added for the remote, if it had none.
pub open spec fn with_remote(remotes: Seq<RemoteView>, identity: Seq<u8>) -> Seq<RemoteView> {
    match lookup(remotes, identity) {
        Some(i) => remotes,
        None => remotes.push(RemoteView { identity, multiplexes: Seq::empty() }),
    }
}

/// `k` is the first multiplex of the list that goes by the token.
pub open spec fn first_with(list: Seq<ConnectMultiplex>, token: u64, k: int) -> bool {
    &&& 0 <= k < list.len()
    &&& list[k].token == token
    &&& forall|j: int| 0 <= j < k ==> (#[trigger] list[j]).token != token
}

/// No multiplex of the list goes by the token.
pub open spec fn none_with(list: Seq<ConnectMultiplex>, token: u64) -> bool {
    forall|j: int| 0 <= j < list.len() ==> (#[trigger] list[j]).token != token
}

/// The place of the first multiplex of the list that goes by the token.
pub open spec fn first_token(list: Seq<ConnectMultiplex>, token: u64) -> int {
    choose|k: int| first_with(list, token, k)
}

/// The remotes `after` are `before` but for the first multiplex of the
/// remote that goes by the token, which keeps its place and its token.
pub open spec fn changed_at(before: Seq<RemoteView>, after: Seq<RemoteView>, remote: Seq<u8>, token: u64) -> bool {
    let list = multiplexes_to(before, remote);
    let now = multiplexes_to(after, remote);
    let k = first_token(list, token);
    &&& first_with(list, token, k)
    &&& lookup(before, remote).is_some()
    &&& lookup(after, remote) == lookup(before, remote)
    &&& same_but(before, after, lookup(before, remote).unwrap())
    &&& now.len() == list.len()
    &&& now[k].token == token
    &&& forall|j: int| 0 <= j < list.len() && j != k ==> now[j] == list[j]
}

/// The place of the first multiplex of the list that goes by the token.
fn find_token(list: &Vec<ConnectMultiplex>, token: u64) -> (found: Option<usize>)
    ensures
        match found {
            Some(k) => first_with(list@, token, k as int),
            None => none_with(list@, token),
        },
{
    let mut k: usize = 0;
    while k < list.len()
        invariant
            k <= list@.len(),
            forall|j: int| 0 <= j < k ==> (#[trigger] list@[j]).token != token,
        decreases list@.len() - k,
    {
        if list[k].token == token {
            return Some(k);
        }
        k += 1;
    }
    None
}

/// Hands out streams to remotes over a bounded pool of multiplexes.
#[derive(Debug)]
pub struct PlexConnector {
    pool: Pool,
    settings: PlexConnectorSettings,
}

impl PlexConnector {
    /// The remotes of the pool.
    pub closed spec fn remotes(&self) -> Seq<RemoteView> {
        self.pool.remotes()
    }

    pub closed spec fn settings(&self) -> PlexConnectorSettings {
        self.settings
    }

    /// The invariant of the connector: the pool meets its own, and no remote
    /// has more multiplexes than the settings allow.
    pub closed spec fn wf(&self) -> bool {
        &&& self.pool.wf()
        &&& self.settings.connections_per_remote >= 1
        &&& self.settings.plex_mailbox_depth >= 1
        &&& forall|i: int|
            0 <= i < self.pool.remotes().len() ==> (#[trigger] self.pool.remotes()[i]).multiplexes.len()
                <= self.settings.connections_per_remote
    }

    /// A connector with an empty pool.
    pub fn new(settings: PlexConnectorSettings) -> (connector: PlexConnector)
        requires
            settings.connections_per_remote >= 1,
            settings.plex_mailbox_depth >= 1,
        ensures
            connector.wf(),
            connector.settings() == settings,
            connector.remotes() == Seq::<RemoteView>::empty(),
    {
        PlexConnector { pool: Pool::new(), settings }
    }

    /// The number of multiplexes that the pool holds to the remote.
    pub fn multiplex_count(&self, remote: Identity) -> (count: usize)
        requires
            self.wf(),
        ensures
            count == multiplexes_to(self.remotes(), remote@).len(),
            count <= self.settings().connections_per_remote,
    {
        match self.place_of(&remote) {
            Some(place) => {
                assert(self.pool.remotes()[place as int].multiplexes.len()
                    <= self.settings.connections_per_remote);
                self.pool.remotes[place].multiplexes.len()
            },
            None => 0,
        }
    }

    /// Decides where the next stream to the remote goes. The dead multiplexes
    /// of the remote are dropped first. With fewer multiplexes left than the
    /// settings allow, a new connection is asked for; else the stream is
    /// opened on the first multiplex with the fewest streams.
    pub fn connect(&mut self, remote: Identity) -> (decision: Connect)
        requires
            old(self).wf(),
        ensures
            final(self).wf(),
            final(self).settings() == old(self).settings(),
            ({
                let base = with_remote(old(self).remotes(), remote@);
                let list = pruned(multiplexes_to(old(self).remotes(), remote@));
                let now = multiplexes_to(final(self).remotes(), remote@);
                let k = first_least_loaded(list);
                &&& lookup(base, remote@).is_some()
                &&& lookup(final(self).remotes(), remote@) == lookup(base, remote@)
                &&& same_but(base, final(self).remotes(), lookup(base, remote@).unwrap())
                &&& match decision {
                    Connect::Dial => list.len() < old(self).settings().connections_per_remote && now
                        == list,
                    Connect::Opened(plex) => {
                        &&& list.len() >= old(self).settings().connections_per_remote
                        &&& least_loaded(list, k)
                        &&& list[k].multiplex.next_local() < id_space()
                        &&& opened_on(list, now, k, plex)
                    },
                    Connect::Exhausted(token) => {
                        &&& list.len() >= old(self).settings().connections_per_remote
                        &&& least_loaded(list, k)
                        &&& list[k].multiplex.next_local() >= id_space()
                        &&& token == list[k].token
                        &&& dying_on(list, now, k)
                    },
                }
            }),
    {
        let place = self.pool.get_multiplexes(remote);
        let ghost base = self.pool.remotes();
        let ghost unpruned = self.pool.remotes@[place as int].multiplexes@;
        proof {
            assert(base[place as int].multiplexes == unpruned);
            if lookup(old(self).remotes(), remote@).is_none() {
                assert(unpruned =~= Seq::<ConnectMultiplex>::empty());
                reveal(Seq::filter);
                assert(pruned(unpruned) =~= pruned(Seq::<ConnectMultiplex>::empty()));
            }
            assert(all_wf(base[place as int].multiplexes));
        }
        let mut entry = self.pool.remotes.remove(place);
        prune_dead(&mut entry.multiplexes);
        let ghost list = entry.multiplexes@;
        let decision = if entry.multiplexes.len() < self.settings.connections_per_remote {
            Connect::Dial
        } else {
            let k = pick_least_loaded(&entry.multiplexes);
            proof {
                lemma_least_loaded_unique(list, k as int);
            }
            let mut chosen = entry.multiplexes.remove(k);
            let token = chosen.token;
            let opened = chosen.multiplex.connect();
            entry.multiplexes.insert(k, chosen);
            match opened {
                Ok(stream_id) => Connect::Opened(PlexHandle { token, stream_id }),
                Err(_) => Connect::Exhausted(token),
            }
        };
        proof {
            assert(entry.multiplexes@.len() == list.len());
            assert(all_wf(entry.multiplexes@));
            assert(list.len() <= unpruned.len());
            assert forall|i: int| 0 <= i < base.len() implies (#[trigger] base[i]).multiplexes.len()
                <= self.settings.connections_per_remote by {
                if i < old(self).pool.remotes().len() {
                    assert(base[i] == old(self).pool.remotes()[i]);
                }
            }
        }
        self.restore(place, entry, Ghost(base));
        decision
    }

    /// Takes note of how the dial that `connect` asked for ended. A new
    /// connection, named by the token that comes with it, becomes a multiplex
    /// of the remote with its first stream open. A failed dial, or a
    /// connection for a remote that has no room for it, changes nothing but
    /// that the remote stands in the pool.
    pub fn dialed(&mut self, remote: Identity, connection: Option<u64>) -> (opened: Result<
        PlexHandle,
        PlexConnectorError,
    >)
        requires
            old(self).wf(),
        ensures
            final(self).wf(),
            final(self).settings() == old(self).settings(),
            ({
                let base = with_remote(old(self).remotes(), remote@);
                let list = multiplexes_to(old(self).remotes(), remote@);
                let now = multiplexes_to(final(self).remotes(), remote@);
                &&& lookup(base, remote@).is_some()
                &&& lookup(final(self).remotes(), remote@) == lookup(base, remote@)
                &&& same_but(base, final(self).remotes(), lookup(base, remote@).unwrap())
                &&& opened.is_ok() <==> connection.is_some() && list.len() < old(self).settings().connections_per_remote
                &&& match opened {
                    Ok(plex) => {
                        &&& plex == (PlexHandle { token: connection.unwrap(), stream_id: 0 })
                        &&& now.len() == list.len() + 1
                        &&& now.drop_last() == list
                        &&& now.last().token == plex.token
                        &&& now.last().multiplex.role() == Role::Connector
                        &&& now.last().multiplex.lifecycle() == Lifecycle::Alive
                        &&& now.last().multiplex.depth() == old(self).settings().plex_mailbox_depth
                        &&& now.last().multiplex.next_local() == 2
                        &&& now.last().multiplex.next_remote() == 1
                        &&& now.last().multiplex.plexes() == seq![
                            PlexView { id: 0, queue: Seq::empty(), ended: false },
                        ]
                    },
                    Err(error) => error == PlexConnectorError::ConnectFailed && now == list,
                }
            }),
    {
        let place = self.pool.get_multiplexes(remote);
        let ghost base = self.pool.remotes();
        proof {
            if lookup(old(self).remotes(), remote@).is_none() {
                assert(base[place as int].multiplexes =~= Seq::<ConnectMultiplex>::empty());
            }
            assert forall|i: int| 0 <= i < base.len() implies (#[trigger] base[i]).multiplexes.len()
                <= self.settings.connections_per_remote by {
                if i < old(self).pool.remotes().len() {
                    assert(base[i] == old(self).pool.remotes()[i]);
                }
            }
        }
        let token = match connection {
            Some(token) => token,
            None => {
                return Err(PlexConnectorError::ConnectFailed);
            },
        };
        if self.pool.remotes[place].multiplexes.len() >= self.settings.connections_per_remote {
            return Err(PlexConnectorError::ConnectFailed);
        }
        let mut multiplex = Multiplex::new(Role::Connector, self.settings.plex_mailbox_depth);
        let opened = multiplex.connect();
        let mut entry = self.pool.remotes.remove(place);
        let ghost list = entry.multiplexes@;
        entry.multiplexes.push(ConnectMultiplex { token, multiplex });
        proof {
            assert(base[place as int].multiplexes == list);
            assert(all_wf(base[place as int].multiplexes));
            assert(entry.multiplexes@.drop_last() =~= list);
            assert(Seq::<PlexView>::empty().push(PlexView { id: 0, queue: Seq::empty(), ended: false })
                =~= seq![PlexView { id: 0, queue: Seq::empty(), ended: false }]);
        }
        self.restore(place, entry, Ghost(base));
        match opened {
            Ok(stream_id) => Ok(PlexHandle { token, stream_id }),
            Err(_) => Err(PlexConnectorError::ConnectFailed),
        }
    }

    /// Puts a changed list back in the place of a remote.
    fn restore(&mut self, place: usize, entry: Remote, Ghost(base): Ghost<Seq<RemoteView>>)
        requires
            place <= old(self).pool.remotes@.len(),
            base.len() == old(self).pool.remotes@.len() + 1,
            forall|i: int| 0 <= i < place ==> (#[trigger] old(self).pool.remotes@[i])@ == base[i],
            forall|i: int|
                place <= i < old(self).pool.remotes@.len() ==> (#[trigger] old(self).pool.remotes@[i])@
                    == base[i + 1],
            forall|i: int, j: int| 0 <= i < j < base.len() ==> base[i].identity != base[j].identity,
            forall|i: int| 0 <= i < base.len() ==> all_wf((#[trigger] base[i]).multiplexes),
            forall|i: int|
                0 <= i < base.len() ==> (#[trigger] base[i]).multiplexes.len()
                    <= old(self).settings.connections_per_remote,
            old(self).settings.connections_per_remote >= 1,
            old(self).settings.plex_mailbox_depth >= 1,
            entry@.identity == base[place as int].identity,
            all_wf(entry@.multiplexes),
            entry@.multiplexes.len() <= old(self).settings.connections_per_remote,
        ensures
            final(self).wf(),
            final(self).settings == old(self).settings,
            same_but(base, final(self).remotes(), place as int),
            final(self).remotes()[place as int] == entry@,
            lookup(final(self).remotes(), entry@.identity) == Some(place as int),
    {
        self.pool.remotes.insert(place, entry);
        proof {
            let after = self.pool.remotes();
            assert(after.len() == base.len());
            assert forall|i: int| 0 <= i < base.len() && i != place implies after[i] == base[i] by {
                if i < place {
                    assert(old(self).pool.remotes@[i]@ == base[i]);
                } else {
                    assert(old(self).pool.remotes@[i - 1]@ == base[i - 1 + 1]);
                }
            }
            assert forall|i: int, j: int| 0 <= i < j < after.len() implies after[i].identity
                != after[j].identity by {
                assert(base[i].identity != base[j].identity);
            }
            assert forall|i: int| 0 <= i < after.len() implies all_wf((#[trigger] after[i]).multiplexes) by {
                if i != place {
                    assert(all_wf(base[i].multiplexes));
                }
            }
            assert(self.pool.wf());
            self.pool.lemma_lookup(entry@.identity, place as int);
            assert forall|i: int| 0 <= i < after.len() implies (#[trigger] after[i]).multiplexes.len()
                <= self.settings.connections_per_remote by {
                if i != place {
                    assert(after[i] == base[i]);
                }
            }
        }
    }

    /// The place of a remote that the pool knows.
    fn place_of(&self, remote: &Identity) -> (found: Option<usize>)
        requires
            self.wf(),
        ensures
            found.is_some() == lookup(self.remotes(), remote@).is_some(),
            found.is_some() ==> lookup(self.remotes(), remote@) == Some(found.unwrap() as int)
                && found.unwrap() < self.pool.remotes@.len(),
    {
        let mut i: usize = 0;
        while i < self.pool.remotes.len()
            invariant
                self.wf(),
                i <= self.pool.remotes@.len(),
                self.pool.remotes().len() == self.pool.remotes@.len(),
                forall|j: int| 0 <= j < i ==> self.pool.remotes()[j].identity != remote@,
            decreases self.pool.remotes@.len() - i,
        {
            if self.pool.remotes[i].identity.same(remote) {
                proof {
                    assert(self.pool.remotes()[i as int].identity == remote@);
                    self.pool.lemma_lookup(remote@, i as int);
                }
                return Some(i);
            }
            i += 1;
        }
        None
    }

    /// The places of a remote and of its first multiplex that goes by the token.
    fn locate(&self, remote: &Identity, token: u64) -> (found: Option<(usize, usize)>)
        requires
            self.wf(),
        ensures
            match found {
                None => none_with(multiplexes_to(self.remotes(), remote@), token),
                Some((place, k)) => {
                    let list = multiplexes_to(self.remotes(), remote@);
                    &&& lookup(self.remotes(), remote@) == Some(place as int)
                    &&& place < self.pool.remotes@.len()
                    &&& self.pool.remotes@[place as int]@.multiplexes == list
                    &&& k < list.len()
                    &&& first_with(list, token, k as int)
                    &&& first_token(list, token) == k
                    &&& all_wf(list)
                    &&& list.len() <= self.settings.connections_per_remote
                },
            },
    {
        let place = match self.place_of(remote) {
            Some(place) => place,
            None => {
                return None;
            },
        };
        let k = match find_token(&self.pool.remotes[place].multiplexes, token) {
            Some(k) => k,
            None => {
                return None;
            },
        };
        proof {
            let list = self.pool.remotes()[place as int].multiplexes;
            let chosen = first_token(list, token);
            assert(first_with(list, token, k as int));
            assert(chosen == k) by {
                if chosen < k {
                    assert(list[chosen].token != token);
                } else if chosen > k {
                    assert(list[k as int].token != token);
                }
            }
            assert(all_wf(list));
        }
        Some((place, k))
    }

    /// The reader of a pooled multiplex took a frame from its connection:
    /// the frame is routed on the first multiplex of the remote that goes by
    /// the token. Without such a multiplex the reader is told to stop.
    pub fn route(&mut self, remote: Identity, token: u64, frame: Frame) -> (routed: Routed)
        requires
            old(self).wf(),
        ensures
            final(self).wf(),
            final(self).settings() == old(self).settings(),
            ({
                let list = multiplexes_to(old(self).remotes(), remote@);
                let now = multiplexes_to(final(self).remotes(), remote@);
                let k = first_token(list, token);
                if none_with(list, token) {
                    final(self).remotes() == old(self).remotes() && routed is Stopped
                } else {
                    &&& changed_at(old(self).remotes(), final(self).remotes(), remote@, token)
                    &&& list[k].multiplex.routed_to(now[k].multiplex, frame@, routed)
                }
            }),
    {
        let (place, k) = match self.locate(&remote, token) {
            Some(found) => found,
            None => {
                return Routed::Stopped;
            },
        };
        let ghost base = self.pool.remotes();
        let mut entry = self.pool.remotes.remove(place);
        let mut chosen = entry.multiplexes.remove(k);
        let routed = chosen.multiplex.route(frame);
        entry.multiplexes.insert(k, chosen);
        self.restore(place, entry, Ghost(base));
        routed
    }

    /// The owner of a stream asks for its next message.
    pub fn receive(&mut self, remote: Identity, plex: PlexHandle) -> (received: Result<Received, PlexError>)
        requires
            old(self).wf(),
        ensures
            final(self).wf(),
            final(self).settings() == old(self).settings(),
            ({
                let list = multiplexes_to(old(self).remotes(), remote@);
                let now = multiplexes_to(final(self).remotes(), remote@);
                let k = first_token(list, plex.token);
                if none_with(list, plex.token) {
                    &&& final(self).remotes() == old(self).remotes()
                    &&& received == Err::<Received, PlexError>(PlexError::MultiplexDead)
                } else {
                    &&& changed_at(old(self).remotes(), final(self).remotes(), remote@, plex.token)
                    &&& list[k].multiplex.received_from(now[k].multiplex, plex.stream_id, received)
                }
            }),
    {
        let (place, k) = match self.locate(&remote, plex.token) {
            Some(found) => found,
            None => {
                return Err(PlexError::MultiplexDead);
            },
        };
        let ghost base = self.pool.remotes();
        let mut entry = self.pool.remotes.remove(place);
        let mut chosen = entry.multiplexes.remove(k);
        let received = chosen.multiplex.receive(plex.stream_id);
        entry.multiplexes.insert(k, chosen);
        self.restore(place, entry, Ghost(base));
        received
    }

    /// The frame that carries a message on a stream of a pooled multiplex;
    /// `None` stands for a message that the codec could not serialise.
    pub fn send(&self, remote: Identity, plex: PlexHandle, encoded: Option<Vec<u8>>) -> (frame: Result<
        Frame,
        PlexError,
    >)
        requires
            self.wf(),
        ensures
            ({
                let list = multiplexes_to(self.remotes(), remote@);
                if encoded.is_none() {
                    frame == Err::<Frame, PlexError>(PlexError::CodecFailed)
                } else if none_with(list, plex.token) {
                    frame == Err::<Frame, PlexError>(PlexError::MultiplexDead)
                } else {
                    &&& first_with(list, plex.token, first_token(list, plex.token))
                    &&& frame == list[first_token(list, plex.token)].multiplex.sent_on(plex.stream_id, encoded)
                }
            }),
    {
        if encoded.is_none() {
            return Err(PlexError::CodecFailed);
        }
        match self.locate(&remote, plex.token) {
            Some((place, k)) => self.pool.remotes[place].multiplexes[k].multiplex.send(plex.stream_id, encoded),
            None => Err(PlexError::MultiplexDead),
        }
    }

    /// The owner dropped a stream: it is closed on the first multiplex of
    /// the remote that goes by the token. The frame that comes back, if any,
    /// is the `Close` to queue on that multiplex's writer. Nothing changes
    /// when the pool holds no such multiplex.
    pub fn release(&mut self, remote: Identity, plex: PlexHandle) -> (frame: Option<Frame>)
        requires
            old(self).wf(),
        ensures
            final(self).wf(),
            final(self).settings() == old(self).settings(),
            ({
                let list = multiplexes_to(old(self).remotes(), remote@);
                let now = multiplexes_to(final(self).remotes(), remote@);
                let k = first_token(list, plex.token);
                if none_with(list, plex.token) {
                    final(self).remotes() == old(self).remotes() && frame.is_none()
                } else {
                    &&& changed_at(old(self).remotes(), final(self).remotes(), remote@, plex.token)
                    &&& list[k].multiplex.closed_to(now[k].multiplex, plex.stream_id, frame)
                }
            }),
    {
        let (place, k) = match self.locate(&remote, plex.token) {
            Some(found) => found,
            None => {
                return None;
            },
        };
        let ghost base = self.pool.remotes();
        let mut entry = self.pool.remotes.remove(place);
        let mut chosen = entry.multiplexes.remove(k);
        let frame = chosen.multiplex.close(plex.stream_id);
        entry.multiplexes.insert(k, chosen);
        self.restore(place, entry, Ghost(base));
        frame
    }

    /// The connection under a multiplex broke: the first multiplex of the
    /// remote that goes by the token is shut down. Says whether the pool
    /// holds such a multiplex.
    pub fn fail(&mut self, remote: Identity, token: u64) -> (found: bool)
        requires
            old(self).wf(),
        ensures
            final(self).wf(),
            final(self).settings() == old(self).settings(),
            ({
                let list = multiplexes_to(old(self).remotes(), remote@);
                let now = multiplexes_to(final(self).remotes(), remote@);
                let k = first_token(list, token);
                &&& found == !none_with(list, token)
                &&& if found {
                    &&& changed_at(old(self).remotes(), final(self).remotes(), remote@, token)
                    &&& list[k].multiplex.shut_to(now[k].multiplex)
                } else {
                    final(self).remotes() == old(self).remotes()
                }
            }),
    {
        let (place, k) = match self.locate(&remote, token) {
            Some(found) => found,
            None => {
                return false;
            },
        };
        let ghost base = self.pool.remotes();
        let mut entry = self.pool.remotes.remove(place);
        let mut chosen = entry.multiplexes.remove(k);
        chosen.multiplex.shutdown();
        entry.multiplexes.insert(k, chosen);
        self.restore(place, entry, Ghost(base));
        true
    }

    /// One keep-alive tick: drops the dead multiplexes of every remote, then
    /// the remotes that have none left, and names the multiplexes that stay:
    /// each of them is to be sent a `Ping`.
    pub fn keep_alive(&mut self) -> (pings: Vec<u64>)
        requires
            old(self).wf(),
        ensures
            final(self).wf(),
            final(self).settings() == old(self).settings(),
            final(self).remotes() == occupied(swept(old(self).remotes())),
            pings@ == tokens(swept(old(self).remotes())),
    {
        let ghost before = self.pool.remotes();
        let ghost target = swept(before);
        let mut pings: Vec<u64> = Vec::new();
        let mut kept: Vec<Remote> = Vec::new();
        let mut rest: Vec<Remote> = Vec::new();
        std::mem::swap(&mut self.pool.remotes, &mut rest);
        assert(target.take(0) =~= Seq::<RemoteView>::empty());
        while rest.len() > 0
            invariant
                old(self).wf(),
                before == old(self).pool.remotes(),
                target == swept(before),
                self.settings == old(self).settings,
                kept@.len() + rest@.len() == before.len(),
                forall|j: int| 0 <= j < rest@.len() ==> (#[trigger] rest@[j])@ == before[kept@.len() + j],
                forall|a: int| 0 <= a < kept@.len() ==> (#[trigger] kept@[a])@ == target[a],
                forall|a: int| 0 <= a < kept@.len() ==> all_wf((#[trigger] kept@[a])@.multiplexes),
                pings@ == tokens(target.take(kept@.len() as int)),
            decreases rest@.len(),
        {
            let ghost done = kept@.len() as int;
            let mut remote = rest.remove(0);
            assert(remote@ == before[done]);
            assert(all_wf(old(self).pool.remotes()[done].multiplexes));
            prune_dead(&mut remote.multiplexes);
            assert(remote@ == target[done]);
            let ghost sofar = pings@;
            let mut j: usize = 0;
            while j < remote.multiplexes.len()
                invariant
                    j <= remote.multiplexes@.len(),
                    pings@ == sofar + remote.multiplexes@.take(j as int).map_values(
                        |entry: ConnectMultiplex| entry.token,
                    ),
                decreases remote.multiplexes@.len() - j,
            {
                pings.push(remote.multiplexes[j].token);
                proof {
                    let list = remote.multiplexes@;
                    let token_of = |entry: ConnectMultiplex| entry.token;
                    assert(list.take(j as int + 1).map_values(token_of) =~= list.take(j as int).map_values(
                        token_of,
                    ).push(list[j as int].token));
                    assert(pings@ =~= sofar + list.take(j as int + 1).map_values(token_of));
                }
                j += 1;
            }
            proof {
                assert(remote.multiplexes@.take(remote.multiplexes@.len() as int) =~= remote.multiplexes@);
                assert(target.take(done + 1).drop_last() =~= target.take(done));
                assert(target.take(done + 1).last() == target[done]);
            }
            kept.push(remote);
        }
        self.pool.remotes = kept;
        proof {
            let swept_now = self.pool.remotes();
            assert(swept_now =~= target);
            assert(target.take(target.len() as int) =~= target);
            assert forall|i: int, j: int| 0 <= i < j < swept_now.len() implies swept_now[i].identity
                != swept_now[j].identity by {
                assert(old(self).pool.remotes()[i].identity != old(self).pool.remotes()[j].identity);
            }
            assert(self.pool.wf());
        }
        self.pool.prune();
        proof {
            let after = self.pool.remotes();
            let occupied_by = |remote: RemoteView| remote.multiplexes.len() > 0;
            assert forall|i: int| 0 <= i < after.len() implies (#[trigger] after[i]).multiplexes.len()
                <= self.settings.connections_per_remote by {
                assert(target.filter(occupied_by).contains(after[i]));
                target.lemma_filter_contains_rev(occupied_by, after[i]);
                let origin = choose|o: int| 0 <= o < target.len() && target[o] == after[i];
                before[origin].multiplexes.lemma_filter_len(|entry: ConnectMultiplex| alive(entry));
                assert(old(self).pool.remotes()[origin].multiplexes.len()
                    <= self.settings.connections_per_remote);
            }
        }
        pings
    }
}

/// Every multiplex of the pool meets its invariant and is in the role of
/// the connector: the streams that are opened through the pool carry even
/// ids.
pub proof fn lemma_pooled_are_connectors(connector: PlexConnector, remote: Seq<u8>, k: int)
    requires
        connector.wf(),
        0 <= k < multiplexes_to(connector.remotes(), remote).len(),
    ensures
        multiplexes_to(connector.remotes(), remote)[k].multiplex.wf(),
        multiplexes_to(connector.remotes(), remote)[k].multiplex.role() == Role::Connector,
{
    match lookup(connector.remotes(), remote) {
        Some(i) => {
            assert(all_wf(connector.remotes()[i].multiplexes));
        },
        None => {},
    }
}

/// At every moment the multiplexes of a remote that are alive are no more
/// than the settings allow.
pub proof fn lemma_alive_bounded(connector: PlexConnector, remote: Seq<u8>)
    requires
        connector.wf(),
    ensures
        pruned(multiplexes_to(connector.remotes(), remote)).len()
            <= connector.settings().connections_per_remote,
{
    let list = multiplexes_to(connector.remotes(), remote);
    list.lemma_filter_len(|entry: ConnectMultiplex| alive(entry));
    match lookup(connector.remotes(), remote) {
        Some(i) => {
            assert(connector.remotes()[i].multiplexes.len() <= connector.settings().connections_per_remote);
        },
        None => {},
    }
}

} // verus!
