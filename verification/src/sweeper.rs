//! The expiry sweeper.
//!
//! A sweep removes the sessions that have expired, so that the database
//! does not grow without bound. It is housekeeping only: whether a token is
//! valid never depends on a sweep having run. The sweeper itself holds no
//! timer. Whoever drives it tells it that the timer fired or that
//! cancellation was asked for, and it answers what to do next.

use vstd::prelude::*;
use crate::clock::{unix_now, LATEST};
use crate::error::StoreUnavailable;
use crate::store::{is_expired, no_token_twice, sessions_of, token_set, valid_subject, TokenStore};
use crate::token::Token;

verus! {

/// What a sweep did with each expired token.
#[derive(Debug)]
pub struct SweepReport {
    /// The tokens whose entries were removed.
    pub removed: Vec<Token>,
    /// The tokens whose removal failed. They stay candidates for the next
    /// sweep.
    pub failed: Vec<Token>,
}

/// How the entry of one token after a sweep relates to the one before
/// it. The entry of a removed token is gone. The entry of a token whose
/// removal failed is gone or as it was. Any other entry is as it was, and
/// none was added.
pub open spec fn entry_swept(
    before: Map<Seq<u8>, Seq<u8>>,
    after: Map<Seq<u8>, Seq<u8>>,
    removed: Set<Seq<u8>>,
    failed: Set<Seq<u8>>,
    token: Seq<u8>,
) -> bool {
    if removed.contains(token) {
        !after.contains_key(token)
    } else if after.contains_key(token) {
        before.contains_key(token) && after[token] == before[token]
    } else {
        failed.contains(token) || !before.contains_key(token)
    }
}

/// How the entries after a sweep relate to those before it: each as
/// `entry_swept` says.
pub open spec fn swept(
    before: Map<Seq<u8>, Seq<u8>>,
    after: Map<Seq<u8>, Seq<u8>>,
    removed: Set<Seq<u8>>,
    failed: Set<Seq<u8>>,
) -> bool {
    forall|token: Seq<u8>| #[trigger] entry_swept(before, after, removed, failed, token)
}

/// What a sweep at a given time does. The tokens that had expired are
/// those that it reports, each once, as removed or as failed. The entries
/// afterwards are as `swept` says.
pub open spec fn is_sweep(
    before: Map<Seq<u8>, Seq<u8>>,
    after: Map<Seq<u8>, Seq<u8>>,
    removed: Seq<Token>,
    failed: Seq<Token>,
    now: u64,
) -> bool {
    &&& forall|token: Seq<u8>|
        is_expired(sessions_of(before), token, now) <==> (token_set(removed).contains(token)
            || token_set(failed).contains(token))
    &&& token_set(removed).disjoint(token_set(failed))
    &&& no_token_twice(removed)
    &&& no_token_twice(failed)
    &&& swept(before, after, token_set(removed), token_set(failed))
}

/// Adding a token to a list adds it to the list's set.
pub proof fn lemma_token_set_push(tokens: Seq<Token>, token: Token)
    ensures
        token_set(tokens.push(token)) == token_set(tokens).insert(token@),
{
    let longer = tokens.push(token);
    assert forall|key: Seq<u8>| token_set(longer).contains(key) <==> token_set(tokens).insert(
        token@,
    ).contains(key) by {
        if token_set(longer).contains(key) {
            let i = choose|i: int| 0 <= i < longer.len() && #[trigger] longer[i]@ == key;
            if i < tokens.len() {
                assert(tokens[i]@ == key);
            }
        }
        if token_set(tokens).contains(key) {
            let i = choose|i: int| 0 <= i < tokens.len() && #[trigger] tokens[i]@ == key;
            assert(longer[i]@ == key);
        }
        if key == token@ {
            assert(longer[tokens.len() as int]@ == key);
        }
    }
    assert(token_set(longer) =~= token_set(tokens).insert(token@));
}

impl SweepReport {
    /// A report that holds nothing yet.
    pub fn new() -> (report: Self)
        ensures
            report.removed@.len() == 0,
            report.failed@.len() == 0,
    {
        SweepReport { removed: Vec::new(), failed: Vec::new() }
    }

    /// Files a token by how its removal went: under the removed where it
    /// succeeded, under the failed where the store was unavailable.
    pub fn record(&mut self, token: Token, done: Result<(), StoreUnavailable>)
        ensures
            match done {
                Ok(_) => {
                    &&& final(self).removed@ == old(self).removed@.push(token)
                    &&& final(self).failed@ == old(self).failed@
                },
                Err(_) => {
                    &&& final(self).removed@ == old(self).removed@
                    &&& final(self).failed@ == old(self).failed@.push(token)
                },
            },
    {
        match done {
            Ok(_) => self.removed.push(token),
            Err(_) => self.failed.push(token),
        }
    }
}

/// What revoking each token of a list does. Every token of the list is
/// reported, as removed or as failed, and nothing else is. Where no token
/// comes twice in the list, none is reported twice. The entries
/// afterwards are as `swept` says.
pub open spec fn is_sweep_of_list(
    before: Map<Seq<u8>, Seq<u8>>,
    after: Map<Seq<u8>, Seq<u8>>,
    listed: Seq<Token>,
    removed: Seq<Token>,
    failed: Seq<Token>,
) -> bool {
    &&& forall|token: Seq<u8>|
        token_set(listed).contains(token) <==> (token_set(removed).contains(token) || token_set(
            failed,
        ).contains(token))
    &&& removed.len() + failed.len() == listed.len()
    &&& no_token_twice(listed) ==> {
        &&& token_set(removed).disjoint(token_set(failed))
        &&& no_token_twice(removed)
        &&& no_token_twice(failed)
    }
    &&& swept(before, after, token_set(removed), token_set(failed))
}

/// Carries a sweep on from the list of the expired: revokes each token
/// of the list, in turn. A removal that fails does not stop the sweep:
/// the token is reported as failed, and the sweep goes on with the next.
/// Where the list itself could not be had, the store is left alone and
/// reported as unavailable.
pub fn revoke_listed(store: &mut TokenStore, listed: Result<Vec<Token>, StoreUnavailable>) -> (outcome:
    Result<SweepReport, StoreUnavailable>)
    ensures
        final(store).ttl() == old(store).ttl(),
        match listed {
            Ok(tokens) => outcome matches Ok(report) && is_sweep_of_list(
                old(store).entries(),
                final(store).entries(),
                tokens@,
                report.removed@,
                report.failed@,
            ),
            Err(_) => outcome is Err && final(store).entries() == old(store).entries(),
        },
{
    let expired = match listed {
        Ok(expired) => expired,
        Err(_) => {
            return Err(StoreUnavailable);
        },
    };
    let ghost before = store.entries();
    let mut report = SweepReport::new();
    let mut i: usize = 0;
    assert(swept(before, store.entries(), token_set(report.removed@), token_set(report.failed@)))
        by {
        assert forall|key: Seq<u8>| #[trigger]
            entry_swept(
                before,
                before,
                token_set(report.removed@),
                token_set(report.failed@),
                key,
            ) by {}
    }
    while i < expired.len()
        invariant
            i <= expired@.len(),
            store.ttl() == old(store).ttl(),
            before == old(store).entries(),
            report.removed@.len() + report.failed@.len() == i,
            forall|token: Seq<u8>|
                (token_set(report.removed@).contains(token) || token_set(report.failed@).contains(
                    token,
                )) <==> (exists|j: int| 0 <= j < i && #[trigger] expired@[j]@ == token),
            no_token_twice(expired@) ==> {
                &&& token_set(report.removed@).disjoint(token_set(report.failed@))
                &&& no_token_twice(report.removed@)
                &&& no_token_twice(report.failed@)
            },
            swept(before, store.entries(), token_set(report.removed@), token_set(report.failed@)),
        decreases expired@.len() - i,
    {
        let token = expired[i].clone();
        let ghost earlier = store.entries();
        let ghost was_removed = report.removed@;
        let ghost was_failed = report.failed@;
        let done = store.revoke(&token);
        report.record(token, done);
        proof {
            if done is Ok {
                lemma_token_set_push(was_removed, token);
            } else {
                lemma_token_set_push(was_failed, token);
            }
            let after = store.entries();
            let r = token_set(report.removed@);
            let f = token_set(report.failed@);
            assert forall|key: Seq<u8>| #[trigger] entry_swept(before, after, r, f, key) by {
                assert(entry_swept(
                    before,
                    earlier,
                    token_set(was_removed),
                    token_set(was_failed),
                    key,
                ));
            }
            assert forall|key: Seq<u8>|
                (r.contains(key) || f.contains(key)) <==> (exists|j: int|
                    0 <= j < i + 1 && #[trigger] expired@[j]@ == key) by {
                if key == token@ {
                    assert(expired@[i as int]@ == key);
                } else {
                    if exists|j: int| 0 <= j < i + 1 && #[trigger] expired@[j]@ == key {
                        let j = choose|j: int| 0 <= j < i + 1 && #[trigger] expired@[j]@ == key;
                        assert(j < i);
                    }
                    if token_set(was_removed).contains(key) || token_set(was_failed).contains(key) {
                        let j = choose|j: int| 0 <= j < i && #[trigger] expired@[j]@ == key;
                        assert(0 <= j < i + 1 && expired@[j]@ == key);
                    }
                }
            }
            if no_token_twice(expired@) {
                assert(!token_set(was_removed).contains(token@) && !token_set(was_failed).contains(
                    token@,
                )) by {
                    if token_set(was_removed).contains(token@) || token_set(was_failed).contains(
                        token@,
                    ) {
                        let j = choose|j: int| 0 <= j < i && #[trigger] expired@[j]@ == token@;
                        assert(expired@[j]@ != expired@[i as int]@);
                    }
                }
                lemma_no_twice_push(was_removed, token);
                lemma_no_twice_push(was_failed, token);
            }
        }
        i += 1;
    }
    proof {
        assert forall|token: Seq<u8>|
            token_set(expired@).contains(token) <==> (token_set(report.removed@).contains(token)
                || token_set(report.failed@).contains(token)) by {
            if token_set(expired@).contains(token) {
                let j = choose|j: int| 0 <= j < expired@.len() && #[trigger] expired@[j]@ == token;
                assert(0 <= j < i && expired@[j]@ == token);
            }
            if token_set(report.removed@).contains(token) || token_set(report.failed@).contains(
                token,
            ) {
                let j = choose|j: int| 0 <= j < i && #[trigger] expired@[j]@ == token;
                assert(token_set(expired@).contains(token));
            }
        }
    }
    Ok(report)
}

/// Adding a token that a list does not hold keeps the list free of
/// repeats.
pub proof fn lemma_no_twice_push(tokens: Seq<Token>, token: Token)
    requires
        no_token_twice(tokens),
        !token_set(tokens).contains(token@),
    ensures
        no_token_twice(tokens.push(token)),
{
    let longer = tokens.push(token);
    assert forall|j: int, k: int| 0 <= j < k < longer.len() implies #[trigger] longer[j]@
        != #[trigger] longer[k]@ by {
        assert(longer[j] == tokens[j]);
        if k < tokens.len() {
            assert(longer[k] == tokens[k]);
        } else {
            if tokens[j]@ == token@ {
                assert(token_set(tokens).contains(token@));
            }
        }
    }
}

/// Removes the sessions that have expired at the given time. The expired
/// tokens are listed first; then each is revoked, in turn. A removal that
/// fails does not stop the sweep: the token is reported as failed, and
/// the sweep goes on with the next.
pub fn sweep(store: &mut TokenStore, now: u64) -> (outcome: Result<SweepReport, StoreUnavailable>)
    ensures
        final(store).ttl() == old(store).ttl(),
        outcome matches Ok(report) ==> is_sweep(
            old(store).entries(),
            final(store).entries(),
            report.removed@,
            report.failed@,
            now,
        ),
        outcome is Err ==> final(store).entries() == old(store).entries(),
{
    let listed = store.list_expired(now);
    revoke_listed(store, listed)
}

/// A sweep in which no removal failed leaves exactly the entries of the
/// tokens that it did not remove.
pub proof fn lemma_clean_sweep(
    before: Map<Seq<u8>, Seq<u8>>,
    after: Map<Seq<u8>, Seq<u8>>,
    removed: Set<Seq<u8>>,
)
    requires
        swept(before, after, removed, Set::empty()),
    ensures
        after == before.remove_keys(removed),
{
    let rest = before.remove_keys(removed);
    assert forall|token: Seq<u8>| #[trigger]
        after.dom().contains(token) == rest.dom().contains(token) by {
        assert(entry_swept(before, after, removed, Set::empty(), token));
    }
    assert forall|token: Seq<u8>| #[trigger] after.dom().contains(token) implies after[token]
        == rest[token] by {
        assert(entry_swept(before, after, removed, Set::empty(), token));
    }
    assert(after =~= rest);
}

/// A sweep is housekeeping: it changes the verdict on no token, at the
/// time of the sweep or at any later time. What it removes had expired,
/// and was invalid already.
pub proof fn lemma_sweep_keeps_verdicts(
    before: Map<Seq<u8>, Seq<u8>>,
    after: Map<Seq<u8>, Seq<u8>>,
    removed: Set<Seq<u8>>,
    failed: Set<Seq<u8>>,
    now: u64,
    token: Seq<u8>,
    later: u64,
)
    requires
        swept(before, after, removed, failed),
        forall|t: Seq<u8>|
            removed.contains(t) || failed.contains(t) ==> #[trigger] is_expired(
                sessions_of(before),
                t,
                now,
            ),
        now <= later,
    ensures
        valid_subject(sessions_of(after), token, later) == valid_subject(
            sessions_of(before),
            token,
            later,
        ),
{
    assert(entry_swept(before, after, removed, failed, token));
    if removed.contains(token) || failed.contains(token) {
        assert(is_expired(sessions_of(before), token, now));
    }
}

/// A sweep passes over a token that has no entry: it reports nothing of
/// it, and the token has no entry afterwards either.
pub proof fn lemma_sweep_skips_absent(
    before: Map<Seq<u8>, Seq<u8>>,
    after: Map<Seq<u8>, Seq<u8>>,
    removed: Seq<Token>,
    failed: Seq<Token>,
    now: u64,
    token: Seq<u8>,
)
    requires
        is_sweep(before, after, removed, failed, now),
        !before.contains_key(token),
    ensures
        !token_set(removed).contains(token),
        !token_set(failed).contains(token),
        !after.contains_key(token),
{
    assert(entry_swept(before, after, token_set(removed), token_set(failed), token));
    assert(!is_expired(sessions_of(before), token, now));
}

/// What the driver of the sweeper tells it.
#[derive(Debug, Clone, Copy, PartialEq, Eq, Structural)]
pub enum SweeperEvent {
    /// The interval has passed.
    TimerFired,
    /// The process is shutting down.
    CancelRequested,
}

/// What the sweeper asks of its driver.
#[derive(Debug, Clone, Copy, PartialEq, Eq, Structural)]
pub enum SweeperAction {
    /// Run a sweep, then wait for the next event.
    Sweep,
    /// Leave the loop.
    Exit,
}

/// The sweeper: the interval between two sweeps, and whether
/// cancellation was asked for.
pub struct ExpirySweeper {
    interval: u64,
    cancelled: bool,
}

impl ExpirySweeper {
    /// The seconds between two sweeps.
    pub closed spec fn interval(&self) -> u64 {
        self.interval
    }

    /// Whether cancellation was asked for.
    pub closed spec fn cancelled(&self) -> bool {
        self.cancelled
    }

    /// A sweeper that is to run every `interval` seconds. There is no
    /// sweeper with an interval of no time at all.
    pub fn new(interval: u64) -> (sweeper: Option<Self>)
        ensures
            sweeper is Some <==> interval > 0,
            sweeper matches Some(s) ==> s.interval() == interval && !s.cancelled(),
    {
        if interval == 0 {
            None
        } else {
            Some(ExpirySweeper { interval, cancelled: false })
        }
    }

    /// The seconds between two sweeps.
    pub fn interval_seconds(&self) -> (interval: u64)
        ensures
            interval == self.interval(),
    {
        self.interval
    }

    /// Whether cancellation was asked for.
    pub fn is_cancelled(&self) -> (cancelled: bool)
        ensures
            cancelled == self.cancelled(),
    {
        self.cancelled
    }

    /// Takes an event and says what to do. Once cancellation was asked
    /// for, the answer is to leave, now and at every later event: the
    /// tick that follows a cancellation is skipped.
    pub fn on_event(&mut self, event: SweeperEvent) -> (action: SweeperAction)
        ensures
            final(self).interval() == old(self).interval(),
            final(self).cancelled() == (old(self).cancelled() || event
                == SweeperEvent::CancelRequested),
            action == if final(self).cancelled() {
                SweeperAction::Exit
            } else {
                SweeperAction::Sweep
            },
    {
        match event {
            SweeperEvent::CancelRequested => {
                self.cancelled = true;
            },
            SweeperEvent::TimerFired => {},
        }
        if self.cancelled {
            SweeperAction::Exit
        } else {
            SweeperAction::Sweep
        }
    }

    /// Takes an event at the given time and does what it calls for: a
    /// sweep of the store, or nothing where the sweeper is to leave.
    /// `None` says that the loop is over.
    pub fn run_at(&mut self, event: SweeperEvent, store: &mut TokenStore, now: u64) -> (outcome:
        Option<Result<SweepReport, StoreUnavailable>>)
        ensures
            final(self).interval() == old(self).interval(),
            final(self).cancelled() == (old(self).cancelled() || event
                == SweeperEvent::CancelRequested),
            final(store).ttl() == old(store).ttl(),
            outcome is None <==> final(self).cancelled(),
            outcome is None ==> final(store).entries() == old(store).entries(),
            outcome matches Some(Err(_)) ==> final(store).entries() == old(store).entries(),
            outcome matches Some(Ok(report)) ==> is_sweep(
                old(store).entries(),
                final(store).entries(),
                report.removed@,
                report.failed@,
                now,
            ),
    {
        match self.on_event(event) {
            SweeperAction::Exit => None,
            SweeperAction::Sweep => Some(sweep(store, now)),
        }
    }

    /// Takes an event at the present time, as `run_at` does.
    pub fn run(&mut self, event: SweeperEvent, store: &mut TokenStore) -> (outcome: Option<
        Result<SweepReport, StoreUnavailable>,
    >)
        ensures
            final(self).interval() == old(self).interval(),
            final(self).cancelled() == (old(self).cancelled() || event
                == SweeperEvent::CancelRequested),
            final(store).ttl() == old(store).ttl(),
            outcome is None <==> final(self).cancelled(),
            outcome is None ==> final(store).entries() == old(store).entries(),
            outcome matches Some(Err(_)) ==> final(store).entries() == old(store).entries(),
            outcome matches Some(Ok(report)) ==> exists|now: u64|
                now <= LATEST && #[trigger] is_sweep(
                    old(store).entries(),
                    final(store).entries(),
                    report.removed@,
                    report.failed@,
                    now,
                ),
    {
        let now = unix_now();
        self.run_at(event, store, now)
    }
}

} // verus!
