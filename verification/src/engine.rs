//! The scheduler core: single-flight per resource key, trailing-edge
//! coalescing of overlapping requests, generation-stamped staleness
//! suppression, a versioned result cache, and a payload-free wake bus.
//!
//! The engine is a state machine over plain values. The caller (the
//! process's worker loop) drives it: `submit` records a request and never
//! blocks; `poll_dispatch` hands out at most one runnable job at a time,
//! never two for one key and never two against one repository location;
//! the worker performs the blocking repository operation and hands the
//! outcome back through `complete`, which publishes it to the cache and
//! raises a wake signal only if the job's captured generation is still the
//! key's live generation — a stale job is discarded silently and exactly
//! one trailing run with the latest recorded parameters is queued.

use vstd::prelude::*;
use crate::errors::OpError;
use crate::keys::RepoPath;
use crate::resources::{
    duplicate_params, params_v, JobTicket, KeyV, ParamsV, ResourceKey, ResourceParams,
    ResourceValue,
};

verus! {

/// Where a key's one job stands. A key never has more than one job in
/// flight: this enum is the whole of its flight state.
pub enum Flight {
    /// no run wanted and none in progress
    Idle,
    /// a run is wanted but has not started (waiting for a worker or for
    /// the location to become free)
    Queued,
    /// a worker is computing: the generation captured at dispatch, and
    /// (ghost) the parameter value the worker was handed
    Running(u64, Ghost<ParamsV>),
}

pub open spec fn is_idle(f: Flight) -> bool {
    f is Idle
}

pub open spec fn is_queued(f: Flight) -> bool {
    f is Queued
}

pub open spec fn is_running(f: Flight) -> bool {
    f is Running
}

/// The generation a running job captured.
pub open spec fn running_gen(f: Flight) -> u64
    recommends
        is_running(f),
{
    match f {
        Flight::Running(g, _) => g,
        _ => 0,
    }
}

/// The parameter value a running job was handed.
pub open spec fn running_params(f: Flight) -> ParamsV
    recommends
        is_running(f),
{
    match f {
        Flight::Running(_, p) => p@,
        _ => ParamsV::Tags,
    }
}

/// The cached outcome of the last published job for a key, tagged with the
/// generation it answers.
pub struct CacheSlot {
    pub outcome: Result<ResourceValue, OpError>,
    pub generation: u64,
}

/// Everything the engine tracks about one resource key.
pub struct Entry {
    pub key: ResourceKey,
    /// live generation: bumped at every submit, at submit time
    pub live_gen: u64,
    /// latest desired parameters, as of the last submit
    pub latest_params: ResourceParams,
    pub flight: Flight,
    pub cache: Option<CacheSlot>,
}

/// One key's state is well formed when its stamps never run ahead of the
/// live generation, a running job at the live generation carries the
/// latest parameters, and a settled key's cache answers the live
/// generation.
pub open spec fn entry_wf(e: Entry) -> bool {
    &&& e.live_gen >= 1
    &&& (is_running(e.flight) ==> running_gen(e.flight) <= e.live_gen)
    &&& (is_running(e.flight) && running_gen(e.flight) == e.live_gen ==> running_params(e.flight)
        == params_v(&e.latest_params))
    &&& match e.cache {
        Some(c) => c.generation <= e.live_gen && (is_idle(e.flight) ==> c.generation
            == e.live_gen),
        None => true,
    }
}

/// What completing a ticket did.
#[derive(Copy, Clone, PartialEq, Eq, Structural, Debug)]
pub enum CompleteAction {
    /// the outcome was written to the cache and a wake signal raised
    Published,
    /// the job was stale: nothing written, nothing signalled, one trailing
    /// run queued with the latest recorded parameters
    Discarded,
    /// the ticket does not match any running job; nothing changed
    Ignored,
}

/// The payload-free wake signal from the completion path to the consumer.
/// Signals carry no payload, so any number of them collapse into one
/// pending flag without loss: the cache, not the signal, is the source of
/// truth.
pub struct WakeBus {
    /// how many signals were ever raised (saturating)
    pub raised: u64,
    /// whether a signal is waiting to be consumed
    pub pending: bool,
}

impl WakeBus {
    fn raise(&mut self)
        ensures
            final(self).pending,
            final(self).raised == if old(self).raised == u64::MAX {
                u64::MAX
            } else {
                (old(self).raised + 1) as u64
            },
    {
        self.pending = true;
        self.raised = if self.raised == u64::MAX {
            u64::MAX
        } else {
            self.raised + 1
        };
    }
}

/// The engine: one entry per resource key ever submitted, plus the wake
/// bus. All shared state lives here, owned by whoever drives the engine —
/// never ambient.
pub struct Engine {
    pub entries: Vec<Entry>,
    pub bus: WakeBus,
}

impl Engine {
    pub open spec fn s(&self) -> Seq<Entry> {
        self.entries@
    }

    /// Each key appears at most once.
    pub open spec fn keys_unique(&self) -> bool {
        forall|i: int, j: int|
            0 <= i < j < self.s().len() ==> self.s()[i].key@ != self.s()[j].key@
    }

    /// Repository locations are exclusive: no two running jobs against the
    /// same location, whatever their kinds.
    pub open spec fn loc_exclusive(&self) -> bool {
        forall|i: int, j: int|
            0 <= i < self.s().len() && 0 <= j < self.s().len() && i != j && is_running(
                self.s()[i].flight,
            ) && is_running(self.s()[j].flight) ==> self.s()[i].key.location@
                != self.s()[j].key.location@
    }

    pub open spec fn wf(&self) -> bool {
        &&& self.keys_unique()
        &&& self.loc_exclusive()
        &&& forall|i: int| 0 <= i < self.s().len() ==> entry_wf(#[trigger] self.s()[i])
    }

    pub open spec fn has_key(&self, k: KeyV) -> bool {
        exists|i: int| 0 <= i < self.s().len() && self.s()[i].key@ == k
    }

    pub open spec fn index_of(&self, k: KeyV) -> int {
        choose|i: int| 0 <= i < self.s().len() && self.s()[i].key@ == k
    }

    pub open spec fn entry_of(&self, k: KeyV) -> Entry {
        self.s()[self.index_of(k)]
    }

    /// The key's live generation.
    pub open spec fn live_gen(&self, k: KeyV) -> u64 {
        self.entry_of(k).live_gen
    }

    /// The latest desired parameter value for the key.
    pub open spec fn latest_params(&self, k: KeyV) -> ParamsV {
        params_v(&self.entry_of(k).latest_params)
    }

    pub open spec fn flight_of(&self, k: KeyV) -> Flight {
        self.entry_of(k).flight
    }

    pub open spec fn cache_of(&self, k: KeyV) -> Option<CacheSlot> {
        self.entry_of(k).cache
    }

    /// A refresh is pending or in progress for the key.
    pub open spec fn in_flight(&self, k: KeyV) -> bool {
        self.has_key(k) && !is_idle(self.flight_of(k))
    }

    pub fn new() -> (r: Engine)
        ensures
            r.wf(),
            r.s().len() == 0,
            r.bus.raised == 0,
            !r.bus.pending,
    {
        Engine { entries: Vec::new(), bus: WakeBus { raised: 0, pending: false } }
    }

    /// Finds the key's entry.
    fn find_idx(&self, key: &ResourceKey) -> (r: Option<usize>)
        requires
            self.wf(),
        ensures
            match r {
                Some(i) => i < self.s().len() && self.s()[i as int].key@ == key@ && self.has_key(
                    key@,
                ) && self.index_of(key@) == i,
                None => !self.has_key(key@),
            },
    {
        let n = self.entries.len();
        let mut i: usize = 0;
        while i < n
            invariant
                self.wf(),
                i <= n,
                n == self.s().len(),
                forall|j: int| 0 <= j < i ==> self.s()[j].key@ != key@,
            decreases n - i,
        {
            if self.entries[i].key.key_eq(key) {
                proof {
                    lemma_key_at(self, i as int, key@);
                }
                return Some(i);
            }
            i = i + 1;
        }
        None
    }

    /// Accepts a request for the key and returns at once; it never blocks
    /// and never fails. The key's generation is bumped immediately — at
    /// submit time, not at completion time — and the parameters become the
    /// latest desired ones. If a job is already running for the key, no
    /// second job is started: the running job keeps running and the
    /// request is left to the trailing coalesced run. Otherwise one run is
    /// queued. Nothing is written to the cache and no signal is raised.
    pub fn submit(&mut self, key: ResourceKey, params: ResourceParams)
        requires
            old(self).wf(),
            old(self).has_key(key@) ==> old(self).live_gen(key@) < u64::MAX,
        ensures
            final(self).wf(),
            final(self).has_key(key@),
            final(self).live_gen(key@) == if old(self).has_key(key@) {
                old(self).live_gen(key@) + 1
            } else {
                1
            },
            final(self).latest_params(key@) == params_v(&params),
            old(self).has_key(key@) && is_running(old(self).flight_of(key@)) ==> final(self).flight_of(key@) == old(self).flight_of(key@),
            !(old(self).has_key(key@) && is_running(old(self).flight_of(key@))) ==> is_queued(
                final(self).flight_of(key@),
            ),
            final(self).cache_of(key@) == if old(self).has_key(key@) {
                old(self).cache_of(key@)
            } else {
                Option::<CacheSlot>::None
            },
            final(self).bus == old(self).bus,
            forall|k: KeyV| k != key@ ==> final(self).has_key(k) == old(self).has_key(k),
            forall|k: KeyV|
                k != key@ && old(self).has_key(k) ==> final(self).entry_of(k) == old(self).entry_of(k),
    {
        let found = self.find_idx(&key);
        match found {
            Some(i) => {
                let ghost old_s = self.s();
                let e = self.entries.remove(i);
                let new_flight = match e.flight {
                    Flight::Running(g, p) => Flight::Running(g, p),
                    _ => Flight::Queued,
                };
                let new_entry = Entry {
                    key: e.key,
                    live_gen: e.live_gen + 1,
                    latest_params: params,
                    flight: new_flight,
                    cache: e.cache,
                };
                self.entries.insert(i, new_entry);
                proof {
                    assert(self.s() =~= old_s.update(i as int, self.s()[i as int]));
                    assert(self.s()[i as int].key@ == key@);
                    lemma_key_at(old(self), i as int, key@);
                    lemma_key_at(self, i as int, key@);
                    assert forall|k: KeyV| k != key@ implies #[trigger] self.has_key(k) == old(self).has_key(k) by {
                        lemma_same_keys(old(self), self, k);
                    }
                    assert forall|k: KeyV|
                        k != key@ && old(self).has_key(k) implies #[trigger] self.entry_of(k)
                        == old(self).entry_of(k) by {
                        let j = old(self).index_of(k);
                        lemma_key_at(old(self), j, k);
                        lemma_key_at(self, j, k);
                    }
                }
            },
            None => {
                let ghost old_s = self.s();
                let n = self.entries.len();
                self.entries.push(
                    Entry {
                        key,
                        live_gen: 1,
                        latest_params: params,
                        flight: Flight::Queued,
                        cache: Option::None,
                    },
                );
                proof {
                    assert(self.s()[n as int].key@ == key@);
                    assert(forall|j: int| 0 <= j < n ==> self.s()[j] == old_s[j]);
                    assert forall|i: int, j: int|
                        0 <= i < j < self.s().len() implies self.s()[i].key@ != self.s()[j].key@ by {
                        if j < n {
                        } else {
                            assert(self.s()[j].key@ == key@);
                            if self.s()[i].key@ == key@ {
                                assert(old(self).has_key(key@));
                            }
                        }
                    }
                    lemma_key_at(self, n as int, key@);
                    assert forall|k: KeyV| k != key@ implies #[trigger] self.has_key(k) == old(self).has_key(k) by {
                        if old(self).has_key(k) {
                            let j = old(self).index_of(k);
                            lemma_key_at(old(self), j, k);
                            assert(self.s()[j].key@ == k);
                        }
                        if self.has_key(k) {
                            let j = self.index_of(k);
                            lemma_key_at(self, j, k);
                            assert(j != n);
                            assert(old_s[j].key@ == k);
                        }
                    }
                    assert forall|k: KeyV|
                        k != key@ && old(self).has_key(k) implies #[trigger] self.entry_of(k)
                        == old(self).entry_of(k) by {
                        let j = old(self).index_of(k);
                        lemma_key_at(old(self), j, k);
                        lemma_key_at(self, j, k);
                    }
                }
            },
        }
    }

    /// Whether some job is running against the location.
    fn location_busy(&self, loc: &RepoPath) -> (r: bool)
        requires
            self.wf(),
        ensures
            r == exists|j: int|
                0 <= j < self.s().len() && is_running(#[trigger] self.s()[j].flight)
                    && self.s()[j].key.location@ == loc@,
    {
        let n = self.entries.len();
        let mut j: usize = 0;
        while j < n
            invariant
                self.wf(),
                j <= n,
                n == self.s().len(),
                forall|p: int|
                    0 <= p < j ==> !(is_running(#[trigger] self.s()[p].flight)
                        && self.s()[p].key.location@ == loc@),
            decreases n - j,
        {
            let running = match self.entries[j].flight {
                Flight::Running(_, _) => true,
                _ => false,
            };
            if running && self.entries[j].key.location.same_location(loc) {
                return true;
            }
            j = j + 1;
        }
        false
    }

    /// Hands out at most one runnable job: the first queued key whose
    /// location no running job occupies. The job captures the key's live
    /// generation and the latest desired parameters; its key's flight
    /// becomes Running and nothing else changes. When nothing is runnable
    /// (no queued key, or every queued key's location is busy) the engine
    /// is left untouched.
    pub fn poll_dispatch(&mut self) -> (r: Option<JobTicket>)
        requires
            old(self).wf(),
        ensures
            final(self).wf(),
            final(self).bus == old(self).bus,
            match r {
                Some(t) => {
                    &&& old(self).has_key(t.key@) && final(self).has_key(t.key@)
                    &&& is_queued(old(self).flight_of(t.key@))
                    &&& t.generation == old(self).live_gen(t.key@)
                    &&& params_v(&t.params) == old(self).latest_params(t.key@)
                    &&& is_running(final(self).flight_of(t.key@))
                    &&& running_gen(final(self).flight_of(t.key@)) == t.generation
                    &&& running_params(final(self).flight_of(t.key@)) == params_v(&t.params)
                    &&& final(self).live_gen(t.key@) == old(self).live_gen(t.key@)
                    &&& final(self).latest_params(t.key@) == old(self).latest_params(t.key@)
                    &&& final(self).cache_of(t.key@) == old(self).cache_of(t.key@)
                    &&& forall|k: KeyV|
                        k != t.key@ && old(self).has_key(k) && is_running(
                            old(self).flight_of(k),
                        ) ==> k.location != t.key@.location
                    &&& forall|k: KeyV|
                        k != t.key@ ==> final(self).has_key(k) == old(self).has_key(k)
                    &&& forall|k: KeyV|
                        k != t.key@ && old(self).has_key(k) ==> final(self).entry_of(k) == old(self).entry_of(k)
                },
                None => {
                    &&& final(self).s() == old(self).s()
                    &&& forall|i: int|
                        0 <= i < old(self).s().len() && is_queued(
                            #[trigger] old(self).s()[i].flight,
                        ) ==> exists|j: int|
                            0 <= j < old(self).s().len() && is_running(
                                #[trigger] old(self).s()[j].flight,
                            ) && old(self).s()[j].key.location@ == old(self).s()[i].key.location@
                },
            },
    {
        let n = self.entries.len();
        let mut i: usize = 0;
        while i < n
            invariant
                self.wf(),
                i <= n,
                n == self.s().len(),
                self == old(self),
                forall|p: int|
                    0 <= p < i && is_queued(#[trigger] self.s()[p].flight) ==> exists|j: int|
                        0 <= j < self.s().len() && is_running(#[trigger] self.s()[j].flight)
                            && self.s()[j].key.location@ == self.s()[p].key.location@,
            decreases n - i,
        {
            let queued = match self.entries[i].flight {
                Flight::Queued => true,
                _ => false,
            };
            if queued {
                let busy = self.location_busy(&self.entries[i].key.location);
                if !busy {
                    let ghost old_s = self.s();
                    let e = self.entries.remove(i);
                    let gen = e.live_gen;
                    let params = duplicate_params(&e.latest_params);
                    let ticket_key = e.key.duplicate();
                    let new_entry = Entry {
                        key: e.key,
                        live_gen: e.live_gen,
                        latest_params: e.latest_params,
                        flight: Flight::Running(gen, Ghost(params_v(&params))),
                        cache: e.cache,
                    };
                    self.entries.insert(i, new_entry);
                    let ticket = JobTicket { key: ticket_key, params, generation: gen };
                    proof {
                        assert(self.s() =~= old_s.update(i as int, self.s()[i as int]));
                        assert(self.s()[i as int].key@ == ticket.key@);
                        lemma_key_at(old(self), i as int, ticket.key@);
                        lemma_key_at(self, i as int, ticket.key@);
                        assert forall|a: int, b: int|
                            0 <= a < self.s().len() && 0 <= b < self.s().len() && a != b
                                && is_running(self.s()[a].flight) && is_running(
                                self.s()[b].flight,
                            ) implies self.s()[a].key.location@ != self.s()[b].key.location@ by {
                            if a == i as int {
                                assert(is_running(old_s[b].flight));
                                assert(old_s[b].key.location@ != self.s()[i as int].key.location@);
                            } else if b == i as int {
                                assert(is_running(old_s[a].flight));
                                assert(old_s[a].key.location@ != self.s()[i as int].key.location@);
                            }
                        }
                        assert forall|k: KeyV|
                            k != ticket.key@ && old(self).has_key(k) && is_running(
                                old(self).flight_of(k),
                            ) implies k.location != ticket.key@.location by {
                            let j = old(self).index_of(k);
                            lemma_key_at(old(self), j, k);
                        }
                        assert forall|k: KeyV|
                            k != ticket.key@ implies #[trigger] self.has_key(k) == old(self).has_key(k) by {
                            lemma_same_keys(old(self), self, k);
                        }
                        assert forall|k: KeyV|
                            k != ticket.key@ && old(self).has_key(k) implies #[trigger] self
                            .entry_of(k) == old(self).entry_of(k) by {
                            let j = old(self).index_of(k);
                            lemma_key_at(old(self), j, k);
                            lemma_key_at(self, j, k);
                        }
                    }
                    return Some(ticket);
                }
            }
            i = i + 1;
        }
        None
    }

    /// Takes a finished job's outcome back. If the ticket's captured
    /// generation is still the key's live generation, the outcome —
    /// success or failure alike — is written to the cache tagged with that
    /// generation, the flight is cleared, and one wake signal is raised.
    /// If the generation is stale, the outcome is discarded: no cache
    /// write, no signal, and exactly one trailing run is queued so the
    /// latest desired parameters are eventually computed. A ticket that
    /// matches no running job changes nothing.
    pub fn complete(&mut self, ticket: JobTicket, outcome: Result<ResourceValue, OpError>) -> (r:
        CompleteAction)
        requires
            old(self).wf(),
        ensures
            final(self).wf(),
            match r {
                CompleteAction::Published => {
                    &&& old(self).has_key(ticket.key@)
                    &&& final(self).has_key(ticket.key@)
                    &&& is_running(old(self).flight_of(ticket.key@))
                    &&& running_gen(old(self).flight_of(ticket.key@)) == ticket.generation
                    &&& ticket.generation == old(self).live_gen(ticket.key@)
                    &&& running_params(old(self).flight_of(ticket.key@)) == old(self).latest_params(ticket.key@)
                    &&& final(self).cache_of(ticket.key@) == Some(
                        CacheSlot { outcome, generation: ticket.generation },
                    )
                    &&& is_idle(final(self).flight_of(ticket.key@))
                    &&& final(self).live_gen(ticket.key@) == old(self).live_gen(ticket.key@)
                    &&& final(self).latest_params(ticket.key@) == old(self).latest_params(
                        ticket.key@,
                    )
                    &&& (match old(self).cache_of(ticket.key@) {
                        Some(c) => c.generation <= ticket.generation,
                        None => true,
                    })
                    &&& final(self).bus.pending
                    &&& final(self).bus.raised == if old(self).bus.raised == u64::MAX {
                        u64::MAX
                    } else {
                        (old(self).bus.raised + 1) as u64
                    }
                },
                CompleteAction::Discarded => {
                    &&& old(self).has_key(ticket.key@)
                    &&& final(self).has_key(ticket.key@)
                    &&& is_running(old(self).flight_of(ticket.key@))
                    &&& running_gen(old(self).flight_of(ticket.key@)) == ticket.generation
                    &&& ticket.generation < old(self).live_gen(ticket.key@)
                    &&& final(self).cache_of(ticket.key@) == old(self).cache_of(ticket.key@)
                    &&& final(self).bus == old(self).bus
                    &&& is_queued(final(self).flight_of(ticket.key@))
                    &&& final(self).live_gen(ticket.key@) == old(self).live_gen(ticket.key@)
                    &&& final(self).latest_params(ticket.key@) == old(self).latest_params(
                        ticket.key@,
                    )
                },
                CompleteAction::Ignored => {
                    &&& !(old(self).has_key(ticket.key@) && is_running(
                        old(self).flight_of(ticket.key@),
                    ) && running_gen(old(self).flight_of(ticket.key@)) == ticket.generation)
                    &&& final(self).s() == old(self).s()
                    &&& final(self).bus == old(self).bus
                },
            },
            forall|k: KeyV|
                k != ticket.key@ ==> final(self).has_key(k) == old(self).has_key(k),
            forall|k: KeyV|
                k != ticket.key@ && old(self).has_key(k) ==> final(self).entry_of(k) == old(self).entry_of(k),
    {
        let found = self.find_idx(&ticket.key);
        let i = match found {
            Some(i) => i,
            None => {
                return CompleteAction::Ignored;
            },
        };
        let matches_running = match self.entries[i].flight {
            Flight::Running(g, _) => g == ticket.generation,
            _ => false,
        };
        if !matches_running {
            proof {
                lemma_key_at(self, i as int, ticket.key@);
            }
            return CompleteAction::Ignored;
        }
        proof {
            lemma_key_at(old(self), i as int, ticket.key@);
        }
        let ghost old_s = self.s();
        let e = self.entries.remove(i);
        let stale = ticket.generation < e.live_gen;
        let action: CompleteAction;
        let new_entry: Entry;
        if stale {
            // Stale completion: suppress the outcome, queue the trailing
            // coalesced run for the latest recorded parameters.
            new_entry = Entry {
                key: e.key,
                live_gen: e.live_gen,
                latest_params: e.latest_params,
                flight: Flight::Queued,
                cache: e.cache,
            };
            action = CompleteAction::Discarded;
        } else {
            // Current completion: publish the outcome at the captured
            // generation and settle the key.
            new_entry = Entry {
                key: e.key,
                live_gen: e.live_gen,
                latest_params: e.latest_params,
                flight: Flight::Idle,
                cache: Some(CacheSlot { outcome, generation: ticket.generation }),
            };
            action = CompleteAction::Published;
        }
        self.entries.insert(i, new_entry);
        if action == CompleteAction::Published {
            self.bus.raise();
        }
        proof {
            assert(self.s() =~= old_s.update(i as int, self.s()[i as int]));
            assert(self.s()[i as int].key@ == ticket.key@);
            lemma_key_at(self, i as int, ticket.key@);
            assert forall|a: int, b: int|
                0 <= a < self.s().len() && 0 <= b < self.s().len() && a != b && is_running(
                    self.s()[a].flight,
                ) && is_running(self.s()[b].flight) implies self.s()[a].key.location@
                != self.s()[b].key.location@ by {
                assert(a != i as int && b != i as int);
                assert(self.s()[a] == old_s[a] && self.s()[b] == old_s[b]);
            }
            assert forall|k: KeyV| k != ticket.key@ implies #[trigger] self.has_key(k) == old(self).has_key(k) by {
                lemma_same_keys(old(self), self, k);
            }
            assert forall|k: KeyV|
                k != ticket.key@ && old(self).has_key(k) implies #[trigger] self.entry_of(k)
                == old(self).entry_of(k) by {
                let j = old(self).index_of(k);
                lemma_key_at(old(self), j, k);
                lemma_key_at(self, j, k);
            }
        }
        action
    }

    /// Reads the key's current best-known value without blocking, whether
    /// or not a job is running: the cached outcome (success or failure)
    /// and whether a refresh is in flight. `None` means no data yet.
    pub fn read(&self, key: &ResourceKey) -> (r: Option<(&Result<ResourceValue, OpError>, bool)>)
        requires
            self.wf(),
        ensures
            match r {
                Some(pair) => self.has_key(key@) && match self.cache_of(key@) {
                    Some(c) => *pair.0 == c.outcome && pair.1 == self.in_flight(key@),
                    None => false,
                },
                None => !self.has_key(key@) || self.cache_of(key@) is None,
            },
    {
        let found = self.find_idx(key);
        match found {
            Some(i) => {
                let in_flight = match self.entries[i].flight {
                    Flight::Idle => false,
                    _ => true,
                };
                match &self.entries[i].cache {
                    Some(slot) => Some((&slot.outcome, in_flight)),
                    None => None,
                }
            },
            None => None,
        }
    }

    /// Whether a refresh is pending or in progress for the key; never
    /// blocks.
    pub fn is_in_flight(&self, key: &ResourceKey) -> (r: bool)
        requires
            self.wf(),
        ensures
            r == self.in_flight(key@),
    {
        let found = self.find_idx(key);
        match found {
            Some(i) => {
                match self.entries[i].flight {
                    Flight::Idle => false,
                    _ => true,
                }
            },
            None => false,
        }
    }

    /// The key's live generation, 0 when the key was never submitted.
    /// Callers use it to guard `submit`'s generation bound.
    pub fn generation_of(&self, key: &ResourceKey) -> (r: u64)
        requires
            self.wf(),
        ensures
            r == if self.has_key(key@) {
                self.live_gen(key@)
            } else {
                0
            },
    {
        let found = self.find_idx(key);
        match found {
            Some(i) => self.entries[i].live_gen,
            None => 0,
        }
    }

    /// Consumes the pending wake signal, if any: returns whether at least
    /// one signal was raised since the last take. Signals between takes
    /// coalesce; nothing is lost because the cache holds the truth.
    pub fn take_wake(&mut self) -> (r: bool)
        ensures
            r == old(self).bus.pending,
            !final(self).bus.pending,
            final(self).bus.raised == old(self).bus.raised,
            final(self).entries@ == old(self).entries@,
    {
        let was = self.bus.pending;
        self.bus.pending = false;
        was
    }
}

/// In an engine with unique keys, a key names exactly one entry.
proof fn lemma_key_at(e: &Engine, at: int, k: KeyV)
    requires
        e.keys_unique(),
        0 <= at < e.s().len(),
        e.s()[at].key@ == k,
    ensures
        e.has_key(k),
        e.index_of(k) == at,
        e.entry_of(k) == e.s()[at],
{
    assert(e.has_key(k));
    let i = e.index_of(k);
    assert(0 <= i < e.s().len() && e.s()[i].key@ == k);
    if i < at {
        assert(e.s()[i].key@ != e.s()[at].key@);
        assert(false);
    }
    if i > at {
        assert(e.s()[at].key@ != e.s()[i].key@);
        assert(false);
    }
}

/// Two engine states whose entry lists carry the same keys slot by slot
/// agree on key membership.
proof fn lemma_same_keys(a: &Engine, b: &Engine, k: KeyV)
    requires
        a.s().len() == b.s().len(),
        forall|j: int| 0 <= j < a.s().len() ==> a.s()[j].key@ == b.s()[j].key@,
    ensures
        a.has_key(k) == b.has_key(k),
{
    if a.has_key(k) {
        let j = choose|j: int| 0 <= j < a.s().len() && a.s()[j].key@ == k;
        assert(b.s()[j].key@ == k);
    }
    if b.has_key(k) {
        let j = choose|j: int| 0 <= j < b.s().len() && b.s()[j].key@ == k;
        assert(a.s()[j].key@ == k);
    }
}

/// Single-flight: one key never has two entries, so — the flight state
/// being a single slot — at most one job is running for a key at any
/// instant, whatever the submit sequence was.
pub proof fn lemma_single_flight(e: &Engine, k: KeyV)
    requires
        e.wf(),
    ensures
        forall|i: int, j: int|
            0 <= i < e.s().len() && 0 <= j < e.s().len() && e.s()[i].key@ == k && e.s()[j].key@
                == k ==> i == j,
{
}

/// Location exclusivity: two distinct keys with running jobs never share a
/// repository location, whatever their kinds.
pub proof fn lemma_location_exclusive(e: &Engine, k1: KeyV, k2: KeyV)
    requires
        e.wf(),
        k1 != k2,
        e.has_key(k1),
        e.has_key(k2),
        is_running(e.flight_of(k1)),
        is_running(e.flight_of(k2)),
    ensures
        k1.location != k2.location,
{
    let i = e.index_of(k1);
    let j = e.index_of(k2);
    assert(0 <= i < e.s().len() && e.s()[i].key@ == k1);
    assert(0 <= j < e.s().len() && e.s()[j].key@ == k2);
    assert(i != j);
    assert(e.s()[i].key.location@ != e.s()[j].key.location@);
}

/// Eventual consistency, settled form: once a key's coalesced runs have
/// settled (no job queued or running) and a value is cached, the cache
/// answers the key's live generation — a reader sees the result of the
/// latest submit, never only an earlier one.
pub proof fn lemma_settled_cache_is_current(e: &Engine, k: KeyV)
    requires
        e.wf(),
        e.has_key(k),
        is_idle(e.flight_of(k)),
        e.cache_of(k) is Some,
    ensures
        match e.cache_of(k) {
            Some(c) => c.generation == e.live_gen(k),
            None => false,
        },
{
    assert(0 <= e.index_of(k) < e.s().len());
    assert(entry_wf(e.s()[e.index_of(k)]));
}

/// A job that is still current carries the latest desired parameters: if
/// the running job's captured generation equals the live generation, no
/// submit intervened since dispatch, so what the worker computes is what
/// was last asked for.
pub proof fn lemma_current_job_has_latest_params(e: &Engine, k: KeyV)
    requires
        e.wf(),
        e.has_key(k),
        is_running(e.flight_of(k)),
        running_gen(e.flight_of(k)) == e.live_gen(k),
    ensures
        running_params(e.flight_of(k)) == e.latest_params(k),
{
    assert(0 <= e.index_of(k) < e.s().len());
    assert(entry_wf(e.s()[e.index_of(k)]));
}

} // verus!
