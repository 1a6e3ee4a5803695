//! Connecting to a peer by its identity: the address comes from a cache or
//! from the directory, and a failed attempt is tried once more when the
//! directory has a newer address.

use crate::hash::Identity;
use vstd::prelude::*;

verus! {

/// A transport address: an IP address as a 128-bit number, and a port.
#[derive(Clone, Copy, Debug, PartialEq, Eq, Structural)]
pub struct Address {
    pub ip: u128,
    pub port: u16,
}

/// Why connecting to an identity failed.
#[derive(Clone, Copy, Debug, PartialEq, Eq)]
pub enum ConnectorError {
    /// Neither the cache nor the directory has an address for the identity.
    AddressUnknown,
    /// The address could not be dialled.
    ConnectionFailed,
    /// The connection could not be secured.
    SecureFailed,
    /// The peer could not be authenticated.
    AuthenticateFailed,
    /// The peer at the address is somebody else.
    UnexpectedRemote { observed: Identity },
    /// The context was refused.
    ContextRefused,
}

/// Why listening ended.
#[derive(Clone, Copy, Debug, PartialEq, Eq, Structural)]
pub enum ListenError {
    /// Listening was interrupted.
    ListenInterrupted,
}

/// How dialling an address ended.
#[derive(Clone, Copy, Debug)]
pub enum Dialed {
    ConnectionFailed,
    SecureFailed,
    AuthenticateFailed,
    /// The handshake went through with a peer of this identity.
    Authenticated(Identity),
}

/// What the directory or the dial reported.
#[derive(Clone, Copy, Debug)]
pub enum Event {
    /// The directory's answer; `None` when it has no address or failed.
    Queried(Option<Address>),
    Dialed(Dialed),
}

/// What is to be done next for a connection in the making.
#[derive(Clone, Copy, Debug)]
pub enum Next {
    /// Ask the directory for the address of the identity.
    Query,
    /// Dial the address, secure the connection and authenticate the peer.
    Dial(Address),
    /// Nothing more: on `Ok` the connection dialled last is the result.
    Finished(Result<(), ConnectorError>),
}

/// How far a connection in the making has come.
#[derive(Clone, Copy, Debug)]
pub enum Phase {
    /// The cache had no address: the directory is being asked.
    Resolving,
    /// The first dial is under way.
    First(Address),
    /// The first dial failed: the directory is being asked again.
    Requery { stale: Address, error: ConnectorError },
    /// The one retry is under way.
    Second(Address),
    Finished(Result<(), ConnectorError>),
}

/// A connection in the making.
#[derive(Clone, Copy, Debug)]
pub struct Connecting {
    pub root: Identity,
    pub phase: Phase,
}

/// What one attempt amounts to: success if the peer is the one asked for.
pub open spec fn verdict(root: Seq<u8>, outcome: Dialed) -> Result<(), ConnectorError> {
    match outcome {
        Dialed::ConnectionFailed => Err(ConnectorError::ConnectionFailed),
        Dialed::SecureFailed => Err(ConnectorError::SecureFailed),
        Dialed::AuthenticateFailed => Err(ConnectorError::AuthenticateFailed),
        Dialed::Authenticated(observed) => if observed@ == root {
            Ok(())
        } else {
            Err(ConnectorError::UnexpectedRemote { observed })
        },
    }
}

/// What a phase asks for.
pub open spec fn request(phase: Phase) -> Next {
    match phase {
        Phase::Resolving => Next::Query,
        Phase::First(address) => Next::Dial(address),
        Phase::Requery { stale, error } => Next::Query,
        Phase::Second(address) => Next::Dial(address),
        Phase::Finished(result) => Next::Finished(result),
    }
}

/// The phase that follows on an event. An event that the phase did not ask
/// for leaves it as it is.
pub open spec fn phase_after(phase: Phase, root: Seq<u8>, event: Event) -> Phase {
    match (phase, event) {
        (Phase::Resolving, Event::Queried(Some(address))) => Phase::First(address),
        (Phase::Resolving, Event::Queried(None)) => Phase::Finished(Err(ConnectorError::AddressUnknown)),
        (Phase::First(address), Event::Dialed(outcome)) => match verdict(root, outcome) {
            Ok(()) => Phase::Finished(Ok(())),
            Err(error) => Phase::Requery { stale: address, error },
        },
        (Phase::Requery { stale, error }, Event::Queried(Some(fresh))) => if fresh != stale {
            Phase::Second(fresh)
        } else {
            Phase::Finished(Err(error))
        },
        (Phase::Requery { stale, error }, Event::Queried(None)) => Phase::Finished(Err(error)),
        (Phase::Second(address), Event::Dialed(outcome)) => Phase::Finished(verdict(root, outcome)),
        _ => phase,
    }
}

/// What the cache holds for the identity after an event: an address that
/// the directory gave is kept, and a failed first dial drops the address
/// that was used.
pub open spec fn cached_after(cached: Option<Address>, phase: Phase, root: Seq<u8>, event: Event) -> Option<
    Address,
> {
    match (phase, event) {
        (Phase::Resolving, Event::Queried(Some(address))) => Some(address),
        (Phase::First(address), Event::Dialed(outcome)) => if verdict(root, outcome).is_ok() {
            cached
        } else {
            None
        },
        (Phase::Requery { stale, error }, Event::Queried(Some(fresh))) => Some(fresh),
        _ => cached,
    }
}

/// One address of the cache.
#[derive(Clone, Copy, Debug)]
pub struct Entry {
    pub identity: Identity,
    pub address: Address,
}

/// The place of an identity among the entries, if it has one.
pub open spec fn entry_of(entries: Seq<Entry>, identity: Seq<u8>) -> Option<int> {
    if exists|i: int| 0 <= i < entries.len() && entries[i].identity@ == identity {
        Some(choose|i: int| 0 <= i < entries.len() && entries[i].identity@ == identity)
    } else {
        None
    }
}

/// Connects to identities through a directory, with a cache of addresses.
#[derive(Debug)]
pub struct Connector {
    cache: Vec<Entry>,
}

impl Connector {
    /// No identity stands twice in the cache.
    pub closed spec fn wf(&self) -> bool {
        forall|i: int, j: int|
            0 <= i < j < self.cache@.len() ==> self.cache@[i].identity@ != self.cache@[j].identity@
    }

    /// The address that the cache holds for an identity.
    pub closed spec fn cached(&self, identity: Seq<u8>) -> Option<Address> {
        match entry_of(self.cache@, identity) {
            Some(i) => Some(self.cache@[i].address),
            None => None,
        }
    }

    /// A connector with an empty cache.
    pub fn new() -> (connector: Connector)
        ensures
            connector.wf(),
            forall|identity: Seq<u8>| connector.cached(identity).is_none(),
    {
        Connector { cache: Vec::new() }
    }

    fn find(&self, root: &Identity) -> (found: Option<usize>)
        requires
            self.wf(),
        ensures
            match found {
                Some(i) => i < self.cache@.len() && entry_of(self.cache@, root@) == Some(i as int)
                    && self.cache@[i as int].identity@ == root@,
                None => entry_of(self.cache@, root@).is_none(),
            },
    {
        let mut i: usize = 0;
        while i < self.cache.len()
            invariant
                self.wf(),
                i <= self.cache@.len(),
                forall|j: int| 0 <= j < i ==> self.cache@[j].identity@ != root@,
            decreases self.cache@.len() - i,
        {
            if self.cache[i].identity.same(root) {
                proof {
                    self.lemma_entry(root@, i as int);
                }
                return Some(i);
            }
            i += 1;
        }
        None
    }

    /// In a cache without doubles an identity stands where it is found.
    proof fn lemma_entry(&self, identity: Seq<u8>, i: int)
        requires
            self.wf(),
            0 <= i < self.cache@.len(),
            self.cache@[i].identity@ == identity,
        ensures
            entry_of(self.cache@, identity) == Some(i),
    {
        let chosen = choose|k: int| 0 <= k < self.cache@.len() && self.cache@[k].identity@ == identity;
        if chosen < i {
            assert(self.cache@[chosen].identity@ != self.cache@[i].identity@);
        } else if chosen > i {
            assert(self.cache@[i].identity@ != self.cache@[chosen].identity@);
        }
    }

    /// The cached address of an identity.
    pub fn get_address(&self, root: Identity) -> (address: Option<Address>)
        requires
            self.wf(),
        ensures
            address == self.cached(root@),
    {
        match self.find(&root) {
            Some(i) => Some(self.cache[i].address),
            None => None,
        }
    }

    /// Puts an address into the cache, in place of the one that the identity had.
    pub fn cache_address(&mut self, root: Identity, address: Address)
        requires
            old(self).wf(),
        ensures
            final(self).wf(),
            forall|identity: Seq<u8>|
                final(self).cached(identity) == if identity == root@ {
                    Some(address)
                } else {
                    old(self).cached(identity)
                },
    {
        match self.find(&root) {
            Some(i) => {
                self.cache.set(i, Entry { identity: root, address });
            },
            None => {
                self.cache.push(Entry { identity: root, address });
            },
        }
        proof {
            assert forall|i: int, j: int| 0 <= i < j < self.cache@.len() implies self.cache@[i].identity@
                != self.cache@[j].identity@ by {
                if j < old(self).cache@.len() {
                    assert(old(self).cache@[i].identity@ != old(self).cache@[j].identity@);
                } else {
                    if old(self).cache@[i].identity@ == root@ {
                        assert(entry_of(old(self).cache@, root@).is_some());
                    }
                }
            }
            assert forall|identity: Seq<u8>|
                self.cached(identity) == if identity == root@ {
                    Some(address)
                } else {
                    old(self).cached(identity)
                } by {
                self.lemma_same_places(*old(self), identity);
            }
        }
    }

    /// Takes the address of an identity out of the cache.
    pub fn forget_address(&mut self, root: Identity)
        requires
            old(self).wf(),
        ensures
            final(self).wf(),
            forall|identity: Seq<u8>|
                final(self).cached(identity) == if identity == root@ {
                    None
                } else {
                    old(self).cached(identity)
                },
    {
        match self.find(&root) {
            Some(i) => {
                let _ = self.cache.remove(i);
                proof {
                    assert forall|a: int, b: int| 0 <= a < b < self.cache@.len() implies self.cache@[a].identity@
                        != self.cache@[b].identity@ by {
                        let from_a = if a < i { a } else { a + 1 };
                        let from_b = if b < i { b } else { b + 1 };
                        assert(old(self).cache@[from_a].identity@ != old(self).cache@[from_b].identity@);
                    }
                    assert forall|identity: Seq<u8>|
                        self.cached(identity) == if identity == root@ {
                            None
                        } else {
                            old(self).cached(identity)
                        } by {
                        if exists|k: int| 0 <= k < self.cache@.len() && self.cache@[k].identity@ == identity {
                            let k = choose|k: int| 0 <= k < self.cache@.len() && self.cache@[k].identity@ == identity;
                            let from = if k < i { k } else { k + 1 };
                            assert(old(self).cache@[from] == self.cache@[k]);
                            self.lemma_entry(identity, k);
                            old(self).lemma_entry(identity, from);
                            if from < i {
                                assert(old(self).cache@[from].identity@ != old(self).cache@[i as int].identity@);
                            } else {
                                assert(old(self).cache@[i as int].identity@ != old(self).cache@[from].identity@);
                            }
                        } else {
                            if identity != root@ && entry_of(old(self).cache@, identity).is_some() {
                                let from = entry_of(old(self).cache@, identity).unwrap();
                                let k = if from < i { from } else { from - 1 };
                                assert(self.cache@[k] == old(self).cache@[from]);
                            }
                        }
                    }
                }
            },
            None => {},
        }
    }

    /// After a change of one entry's address, or a new entry at the end,
    /// every identity is found where it was.
    proof fn lemma_same_places(&self, before: Connector, identity: Seq<u8>)
        requires
            before.wf(),
            self.wf(),
            before.cache@.len() <= self.cache@.len() <= before.cache@.len() + 1,
            forall|i: int|
                0 <= i < before.cache@.len() ==> self.cache@[i].identity@ == before.cache@[i].identity@,
        ensures
            identity != self.cache@.last().identity@ || self.cache@.len() == before.cache@.len()
                ==> entry_of(self.cache@, identity) == entry_of(before.cache@, identity),
            self.cache@.len() > before.cache@.len() && identity == self.cache@.last().identity@
                ==> entry_of(self.cache@, identity) == Some(self.cache@.len() - 1) && entry_of(
                before.cache@,
                identity,
            ).is_none(),
    {
        if exists|k: int| 0 <= k < self.cache@.len() && self.cache@[k].identity@ == identity {
            let k = choose|k: int| 0 <= k < self.cache@.len() && self.cache@[k].identity@ == identity;
            self.lemma_entry(identity, k);
            if k < before.cache@.len() {
                before.lemma_entry(identity, k);
                if self.cache@.len() > before.cache@.len() {
                    assert(self.cache@[k].identity@ != self.cache@[self.cache@.len() - 1].identity@);
                }
            } else {
                if entry_of(before.cache@, identity).is_some() {
                    let b = entry_of(before.cache@, identity).unwrap();
                    assert(self.cache@[b].identity@ != self.cache@[k].identity@);
                }
            }
        } else {
            if entry_of(before.cache@, identity).is_some() {
                let b = entry_of(before.cache@, identity).unwrap();
                assert(self.cache@[b].identity@ == identity);
            }
        }
    }

    /// Judges one attempt: it succeeded if the peer that answered is the
    /// identity that was asked for.
    pub fn attempt(root: Identity, outcome: Dialed) -> (result: Result<(), ConnectorError>)
        ensures
            result == verdict(root@, outcome),
    {
        match outcome {
            Dialed::ConnectionFailed => Err(ConnectorError::ConnectionFailed),
            Dialed::SecureFailed => Err(ConnectorError::SecureFailed),
            Dialed::AuthenticateFailed => Err(ConnectorError::AuthenticateFailed),
            Dialed::Authenticated(observed) => if observed.same(&root) {
                Ok(())
            } else {
                Err(ConnectorError::UnexpectedRemote { observed })
            },
        }
    }

    /// Takes the directory's answer after a failed attempt on the address
    /// `stale`. An address that the directory gave is cached; the attempt is
    /// worth repeating when that address is another than the stale one.
    pub fn refresh(&mut self, root: Identity, stale: Address, fresh: Option<Address>) -> (retry: bool)
        requires
            old(self).wf(),
        ensures
            final(self).wf(),
            retry == (fresh.is_some() && fresh.unwrap() != stale),
            forall|identity: Seq<u8>|
                final(self).cached(identity) == if identity == root@ && fresh.is_some() {
                    fresh
                } else {
                    old(self).cached(identity)
                },
    {
        match fresh {
            Some(address) => {
                self.cache_address(root, address);
                address != stale
            },
            None => false,
        }
    }

    /// Starts connecting to an identity: with a cached address the dial comes
    /// first, without one the directory.
    pub fn connect(&self, root: Identity) -> (connecting: Connecting)
        requires
            self.wf(),
        ensures
            connecting.root == root,
            connecting.phase == match self.cached(root@) {
                Some(address) => Phase::First(address),
                None => Phase::Resolving,
            },
    {
        match self.get_address(root) {
            Some(address) => Connecting { root, phase: Phase::First(address) },
            None => Connecting { root, phase: Phase::Resolving },
        }
    }

    /// Takes an event into a connection in the making and says what is to be
    /// done next.
    pub fn advance(&mut self, connecting: &mut Connecting, event: Event) -> (next: Next)
        requires
            old(self).wf(),
        ensures
            final(self).wf(),
            final(connecting).root == old(connecting).root,
            final(connecting).phase == phase_after(old(connecting).phase, old(connecting).root@, event),
            next == request(final(connecting).phase),
            forall|identity: Seq<u8>|
                final(self).cached(identity) == if identity == old(connecting).root@ {
                    cached_after(
                        old(self).cached(identity),
                        old(connecting).phase,
                        old(connecting).root@,
                        event,
                    )
                } else {
                    old(self).cached(identity)
                },
    {
        let root = connecting.root;
        let phase = connecting.phase;
        let after = match (phase, event) {
            (Phase::Resolving, Event::Queried(Some(address))) => {
                self.cache_address(root, address);
                Phase::First(address)
            },
            (Phase::Resolving, Event::Queried(None)) => Phase::Finished(
                Err(ConnectorError::AddressUnknown),
            ),
            (Phase::First(address), Event::Dialed(outcome)) => match Connector::attempt(root, outcome) {
                Ok(()) => Phase::Finished(Ok(())),
                Err(error) => {
                    self.forget_address(root);
                    Phase::Requery { stale: address, error }
                },
            },
            (Phase::Requery { stale, error }, Event::Queried(fresh)) => {
                if self.refresh(root, stale, fresh) {
                    match fresh {
                        Some(address) => Phase::Second(address),
                        None => Phase::Finished(Err(error)),
                    }
                } else {
                    Phase::Finished(Err(error))
                }
            },
            (Phase::Second(_), Event::Dialed(outcome)) => Phase::Finished(Connector::attempt(root, outcome)),
            (unchanged, _) => unchanged,
        };
        connecting.phase = after;
        Connecting { root, phase: after }.next()
    }
}

impl Connecting {
    /// What the connection in the making waits for.
    pub fn next(&self) -> (next: Next)
        ensures
            next == request(self.phase),
    {
        match self.phase {
            Phase::Resolving => Next::Query,
            Phase::First(address) => Next::Dial(address),
            Phase::Requery { stale: _, error: _ } => Next::Query,
            Phase::Second(address) => Next::Dial(address),
            Phase::Finished(result) => Next::Finished(result),
        }
    }
}

} // verus!
