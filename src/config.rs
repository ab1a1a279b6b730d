use vstd::prelude::*;
use crate::ledger::Ledger;

verus! {

/// The shared service state: the ledger, the nonce of the next transaction, and the epoch.
pub struct Config {
    pub nonce: u64,
    pub epoch: u64,
    /// Whether a nonce has been stored since start.
    pub updated: bool,
    pub ledger: Ledger,
}

/// The counters of the shared state.
pub struct Counters {
    pub nonce: int,
    pub epoch: int,
}

/// What changes the counters: a transaction attempt that observed a nonce, or a tick of the epoch.
pub ghost enum StateEvent {
    Commit(int),
    Tick,
}

/// The nonce that an attempt commits: the observed one if it moves forward, else one past the current.
pub open spec fn next_nonce(current: int, observed: int) -> int {
    if observed > current { observed } else { current + 1 }
}

pub open spec fn apply_event(c: Counters, e: StateEvent) -> Counters {
    match e {
        StateEvent::Commit(observed) => Counters { nonce: next_nonce(c.nonce, observed), epoch: c.epoch },
        StateEvent::Tick => Counters { nonce: c.nonce, epoch: c.epoch + 1 },
    }
}

/// The counters after the events, in order.
pub open spec fn run_events(c: Counters, es: Seq<StateEvent>) -> Counters
    decreases es.len(),
{
    if es.len() == 0 {
        c
    } else {
        apply_event(run_events(c, es.drop_last()), es.last())
    }
}

/// The nonces committed by the events, in order.
pub open spec fn committed_nonces(c: Counters, es: Seq<StateEvent>) -> Seq<int>
    decreases es.len(),
{
    if es.len() == 0 {
        Seq::empty()
    } else {
        let before = committed_nonces(c, es.drop_last());
        match es.last() {
            StateEvent::Commit(_) => before.push(run_events(c, es).nonce),
            StateEvent::Tick => before,
        }
    }
}

/// The number of ticks among the events.
pub open spec fn tick_count(es: Seq<StateEvent>) -> int
    decreases es.len(),
{
    if es.len() == 0 {
        0
    } else {
        tick_count(es.drop_last()) + if es.last() is Tick { 1int } else { 0int }
    }
}

impl Config {
    pub open spec fn counters(&self) -> Counters {
        Counters { nonce: self.nonce as int, epoch: self.epoch as int }
    }

    /// A fresh state over `ledger`, with nonce and epoch at zero.
    pub fn new(ledger: Ledger) -> (r: Config)
        ensures
            r.nonce == 0,
            r.epoch == 0,
            !r.updated,
            r.ledger == ledger,
    {
        Config { nonce: 0, epoch: 0, updated: false, ledger }
    }

    /// Records `nonce` as the nonce of the next transaction.
    pub fn store_nonce(&mut self, nonce: u64)
        ensures
            final(self).nonce == nonce,
            final(self).updated,
            final(self).epoch == old(self).epoch,
            final(self).ledger == old(self).ledger,
    {
        self.nonce = nonce;
        self.updated = true;
    }

    /// Records the end of a transaction attempt that observed `observed`, successful or not:
    /// the nonce always moves forward, so no two attempts share one.
    pub fn commit_nonce(&mut self, observed: u64)
        requires
            old(self).nonce < u64::MAX,
        ensures
            final(self).counters() == apply_event(old(self).counters(), StateEvent::Commit(observed as int)),
            final(self).nonce > old(self).nonce,
            final(self).updated,
            final(self).ledger == old(self).ledger,
    {
        let next = if observed > self.nonce { observed } else { self.nonce + 1 };
        self.store_nonce(next);
    }

    /// Advances the epoch by one.
    pub fn increment_epoch(&mut self)
        requires
            old(self).epoch < u64::MAX,
        ensures
            final(self).counters() == apply_event(old(self).counters(), StateEvent::Tick),
            final(self).epoch == old(self).epoch + 1,
            final(self).nonce == old(self).nonce,
            final(self).updated == old(self).updated,
            final(self).ledger == old(self).ledger,
    {
        self.epoch = self.epoch + 1;
    }

    /// The epoch and the nonce, and the ledger for a transaction to change.
    pub fn load(&mut self) -> (r: (u64, u64, &mut Ledger))
        ensures
            r.0 == old(self).epoch,
            r.1 == old(self).nonce,
            *r.2 == old(self).ledger,
            final(self).epoch == old(self).epoch,
            final(self).nonce == old(self).nonce,
            final(self).updated == old(self).updated,
            final(self).ledger == *final(r.2),
    {
        (self.epoch, self.nonce, &mut self.ledger)
    }

    /// The ledger, to read.
    pub fn load_immutable(&self) -> (r: &Ledger)
        ensures
            *r == self.ledger,
    {
        &self.ledger
    }
}

/// Whatever the interleaving of transaction attempts and epoch ticks, and whether each attempt
/// succeeded or not, the committed nonces strictly increase and all exceed the starting nonce.
pub proof fn nonces_strictly_increase(c: Counters, es: Seq<StateEvent>)
    ensures
        forall|i: int, j: int|
            0 <= i < j < committed_nonces(c, es).len() ==> committed_nonces(c, es)[i] < committed_nonces(c, es)[j],
        forall|i: int| 0 <= i < committed_nonces(c, es).len() ==> c.nonce < #[trigger] committed_nonces(c, es)[i],
        forall|i: int|
            0 <= i < committed_nonces(c, es).len() ==> #[trigger] committed_nonces(c, es)[i] <= run_events(c, es).nonce,
        c.nonce <= run_events(c, es).nonce,
    decreases es.len(),
{
    if es.len() > 0 {
        let p = es.drop_last();
        nonces_strictly_increase(c, p);
        let prev = committed_nonces(c, p);
        let all = committed_nonces(c, es);
        assert(run_events(c, es) == apply_event(run_events(c, p), es.last()));
        assert(run_events(c, es).nonce >= run_events(c, p).nonce);
        if es.last() is Commit {
            assert(all == prev.push(run_events(c, es).nonce));
            assert(run_events(c, es).nonce > run_events(c, p).nonce);
        } else {
            assert(all == prev);
        }
        assert forall|i: int, j: int| 0 <= i < j < all.len() implies all[i] < all[j] by {
            if j < prev.len() {
                assert(all[i] == prev[i] && all[j] == prev[j]);
            } else {
                assert(all[i] == prev[i]);
            }
        }
        assert forall|i: int| 0 <= i < all.len() implies #[trigger] all[i] <= run_events(c, es).nonce by {
            if i < prev.len() {
                assert(all[i] == prev[i]);
            }
        }
    }
}

/// The epoch moves only by ticks: after any events it is the starting epoch plus the number of
/// ticks, so it never decreases, and commits leave it unchanged.
pub proof fn epoch_moves_only_by_ticks(c: Counters, es: Seq<StateEvent>)
    ensures
        run_events(c, es).epoch == c.epoch + tick_count(es),
        tick_count(es) >= 0,
        forall|k: int| 0 <= k <= es.len() ==> #[trigger] run_events(c, es.subrange(0, k)).epoch <= run_events(c, es).epoch,
    decreases es.len(),
{
    if es.len() > 0 {
        epoch_moves_only_by_ticks(c, es.drop_last());
        assert forall|k: int| 0 <= k <= es.len() implies #[trigger] run_events(c, es.subrange(0, k)).epoch <= run_events(c, es).epoch by {
            if k < es.len() {
                assert(es.subrange(0, k) =~= es.drop_last().subrange(0, k));
            } else {
                assert(es.subrange(0, k) =~= es);
            }
        }
    } else {
        assert forall|k: int| 0 <= k <= es.len() implies #[trigger] run_events(c, es.subrange(0, k)).epoch <= run_events(c, es).epoch by {
            assert(es.subrange(0, k) =~= es);
        }
    }
}

} // verus!
