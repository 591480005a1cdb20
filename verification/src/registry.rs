//! Event handlers and the registry that holds them by event signature.

use vstd::prelude::*;
use ethers::types::Log;

verus! {

/// `ethers::types::Log`, an event log as the node returns it. The library
/// hands logs on to handlers and never looks inside one.
#[verifier::external_type_specification]
#[verifier::external_body]
pub struct ExLog(Log);

/// Receives the logs that match the signature it is registered under.
pub trait EventHandler {
    fn handle(&self, raw_log: &Log);
}

/// A boxed handler is a handler, so that a registry of
/// `Box<dyn EventHandler>` holds handlers of different types side by side.
impl EventHandler for Box<dyn EventHandler> {
    fn handle(&self, raw_log: &Log) {
        (**self).handle(raw_log);
    }
}

/// One registration: an event signature and the handler for its logs.
struct Registration<H> {
    signature: String,
    handler: H,
}

/// The handlers by event signature. A signature has at most one handler:
/// the one registered last.
pub struct HandlerRegistry<H> {
    entries: Vec<Registration<H>>,
}

impl<H: EventHandler> View for HandlerRegistry<H> {
    type V = Map<Seq<char>, H>;

    /// The handler installed for each registered signature.
    open spec fn view(&self) -> Map<Seq<char>, H> {
        Map::new(
            |s: Seq<char>| self.signatures().contains(s),
            |s: Seq<char>| self.handlers()[self.signatures().index_of(s)],
        )
    }
}

impl<H: EventHandler> HandlerRegistry<H> {
    /// The registered signatures, in the order of their first registration.
    pub closed spec fn signatures(&self) -> Seq<Seq<char>> {
        Seq::new(self.entries@.len(), |i: int| self.entries@[i].signature@)
    }

    /// The installed handlers, in the order of `signatures`.
    pub closed spec fn handlers(&self) -> Seq<H> {
        Seq::new(self.entries@.len(), |i: int| self.entries@[i].handler)
    }

    /// No signature is registered twice, and each has its handler.
    pub open spec fn wf(&self) -> bool {
        &&& self.signatures().no_duplicates()
        &&& self.handlers().len() == self.signatures().len()
    }

    pub fn new() -> (registry: HandlerRegistry<H>)
        ensures
            registry.wf(),
            registry.signatures() == Seq::<Seq<char>>::empty(),
            registry@ == Map::<Seq<char>, H>::empty(),
    {
        let registry = HandlerRegistry::<H> { entries: Vec::new() };
        assert(registry.signatures() =~= Seq::<Seq<char>>::empty());
        assert(registry@ =~= Map::<Seq<char>, H>::empty());
        registry
    }

    /// How many signatures are registered.
    pub fn len(&self) -> (len: usize)
        ensures
            len == self.signatures().len(),
    {
        self.entries.len()
    }

    /// The signature registered at position `i`, if there are that many.
    pub fn signature(&self, i: usize) -> (signature: Option<&str>)
        ensures
            match signature {
                Some(s) => i < self.signatures().len() && s@ == self.signatures()[i as int],
                None => i >= self.signatures().len(),
            },
    {
        if i < self.entries.len() {
            Some(self.entries[i].signature.as_str())
        } else {
            None
        }
    }

    /// Where `signature` is registered, if it is.
    fn find(&self, signature: &String) -> (found: Option<usize>)
        requires
            self.wf(),
        ensures
            match found {
                Some(i) => i < self.signatures().len() && self.signatures()[i as int]
                    == signature@ && self.signatures().index_of(signature@) == i,
                None => !self.signatures().contains(signature@),
            },
    {
        let mut i: usize = 0;
        while i < self.entries.len()
            invariant
                self.wf(),
                0 <= i <= self.entries.len(),
                forall|j: int| 0 <= j < i ==> self.signatures()[j] != signature@,
            decreases self.entries.len() - i,
        {
            if self.entries[i].signature == *signature {
                proof {
                    let p = self.signatures().index_of(signature@);
                    assert(self.signatures()[i as int] == signature@);
                    assert(0 <= p < self.signatures().len() && self.signatures()[p]
                        == signature@);
                }
                return Some(i);
            }
            i = i + 1;
        }
        None
    }

    /// Installs `handler` for `event_signature`, in place of the handler
    /// that was registered for it before, if there was one.
    pub fn add_handler(&mut self, event_signature: &str, handler: H)
        requires
            old(self).wf(),
        ensures
            final(self).wf(),
            final(self)@ == old(self)@.insert(event_signature@, handler),
            final(self).signatures() == (if old(self).signatures().contains(event_signature@) {
                old(self).signatures()
            } else {
                old(self).signatures().push(event_signature@)
            }),
    {
        let signature = event_signature.to_owned();
        let ghost before = *old(self);
        let ghost at: int;
        match self.find(&signature) {
            Some(i) => {
                self.entries.set(i, Registration { signature, handler });
                proof {
                    at = i as int;
                    assert(self.signatures() =~= before.signatures());
                    assert(self.handlers() =~= before.handlers().update(at, handler));
                }
            },
            None => {
                self.entries.push(Registration { signature, handler });
                proof {
                    at = before.signatures().len() as int;
                    assert(self.signatures() =~= before.signatures().push(event_signature@));
                    assert(self.handlers() =~= before.handlers().push(handler));
                }
            },
        }
        proof {
            let sigs = self.signatures();
            let hs = self.handlers();
            assert(sigs[at] == event_signature@);
            assert(sigs.no_duplicates());
            assert forall|s: Seq<char>| #[trigger]
                sigs.contains(s) <==> before.signatures().contains(s) || s
                    == event_signature@ by {
                if sigs.contains(s) && s != event_signature@ {
                    let p = sigs.index_of(s);
                    assert(before.signatures()[p] == s);
                }
                if before.signatures().contains(s) {
                    let q = before.signatures().index_of(s);
                    assert(sigs[q] == s);
                }
            }
            assert forall|s: Seq<char>| #[trigger] sigs.contains(s) implies hs[sigs.index_of(s)]
                == before@.insert(event_signature@, handler)[s] by {
                let p = sigs.index_of(s);
                if s == event_signature@ {
                    assert(p == at);
                } else {
                    let q = before.signatures().index_of(s);
                    assert(before.signatures()[p] == s);
                    assert(p == q);
                }
            }
            assert(self@ =~= before@.insert(event_signature@, handler));
        }
    }

    /// The handler installed for `event_signature`, if there is one.
    pub fn handler(&self, event_signature: &str) -> (handler: Option<&H>)
        requires
            self.wf(),
        ensures
            handler == (if self@.contains_key(event_signature@) {
                Some(&self@[event_signature@])
            } else {
                None
            }),
    {
        let signature = event_signature.to_owned();
        match self.find(&signature) {
            Some(i) => Some(&self.entries[i].handler),
            None => None,
        }
    }

    /// Hands each of `logs`, in their order, to the handler installed for
    /// `event_signature`, and returns how many it handed over: all of them,
    /// or none where no handler is installed.
    pub fn dispatch(&self, event_signature: &str, logs: &Vec<Log>) -> (delivered: usize)
        requires
            self.wf(),
        ensures
            delivered == (if self@.contains_key(event_signature@) {
                logs@.len()
            } else {
                0
            }),
    {
        match self.handler(event_signature) {
            Some(handler) => {
                let mut i: usize = 0;
                while i < logs.len()
                    invariant
                        0 <= i <= logs.len(),
                    decreases logs.len() - i,
                {
                    handler.handle(&logs[i]);
                    i = i + 1;
                }
                i
            },
            None => 0,
        }
    }
}

/// A second registration under one signature replaces the first: the
/// registry is then as if only the second had been made.
pub proof fn lemma_last_registration_wins<H>(
    registry: Map<Seq<char>, H>,
    signature: Seq<char>,
    first: H,
    second: H,
)
    ensures
        registry.insert(signature, first).insert(signature, second) == registry.insert(
            signature,
            second,
        ),
        registry.insert(signature, first).insert(signature, second)[signature] == second,
{
    assert(registry.insert(signature, first).insert(signature, second) =~= registry.insert(
        signature,
        second,
    ));
}

} // verus!
