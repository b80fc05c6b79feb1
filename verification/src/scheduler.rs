//! Scheduler bookkeeping: unique transfer tokens, the transfer table, the
//! ready queue, and the per-iteration decisions of the multiplex loop.
//!
//! The blocking loop itself — driving the transfer engine, sleeping, waiting
//! on completions — belongs to the embedding program. It calls the methods
//! here for every decision: how many ready entries to admit, what to do with
//! each, what a completed transfer yields, and when the crawl is over.

use vstd::prelude::*;

use crate::product::{is_default_get, MidProduct, TransferConfig};
use crate::request::{CallBack, Request};
use crate::response::Response;

verus! {

/// Draw the next transfer token from a counter owned by one scheduler
/// instance. Tokens grow strictly, so no two draws ever collide.
pub fn next_token(counter: &mut usize) -> (t: usize)
    requires
        *old(counter) < usize::MAX,
    ensures
        t == *old(counter),
        *final(counter) == *old(counter) + 1,
{
    let t = *counter;
    *counter = *counter + 1;
    t
}

/// The token-to-request pairs of a transfer table, read as a mapping.
pub open spec fn assoc_map(s: Seq<(usize, Request)>) -> Map<usize, Request>
    decreases s.len(),
{
    if s.len() == 0 {
        Map::empty()
    } else {
        assoc_map(s.drop_last()).insert(s.last().0, s.last().1)
    }
}

/// No token appears twice among the pairs.
pub open spec fn keys_unique(s: Seq<(usize, Request)>) -> bool {
    forall|i: int, j: int| 0 <= i < j < s.len() ==> s[i].0 != s[j].0
}

/// Some pair carries this token.
pub open spec fn has_key(s: Seq<(usize, Request)>, k: usize) -> bool {
    exists|j: int| 0 <= j < s.len() && s[j].0 == k
}

proof fn lemma_assoc_dom(s: Seq<(usize, Request)>)
    ensures
        forall|k: usize| #[trigger] assoc_map(s).dom().contains(k) == has_key(s, k),
    decreases s.len(),
{
    if s.len() > 0 {
        let s2 = s.drop_last();
        lemma_assoc_dom(s2);
        assert forall|k: usize| #[trigger] assoc_map(s).dom().contains(k) == has_key(s, k) by {
            assert(assoc_map(s) == assoc_map(s2).insert(s.last().0, s.last().1));
            if k == s.last().0 {
                assert(s[s.len() - 1].0 == k);
                assert(has_key(s, k));
                assert(assoc_map(s).dom().contains(k));
            } else {
                assert(assoc_map(s).dom().contains(k) == assoc_map(s2).dom().contains(k));
                if has_key(s2, k) {
                    let j = choose|j: int| 0 <= j < s2.len() && s2[j].0 == k;
                    assert(s[j].0 == k);
                    assert(has_key(s, k));
                }
                if has_key(s, k) {
                    let j = choose|j: int| 0 <= j < s.len() && s[j].0 == k;
                    assert(j != s.len() - 1);
                    assert(s2[j].0 == k);
                    assert(has_key(s2, k));
                }
            }
        }
    }
}

proof fn lemma_assoc_remove(s: Seq<(usize, Request)>, i: int, k: usize)
    requires
        keys_unique(s),
        0 <= i < s.len(),
        s[i].0 == k,
    ensures
        assoc_map(s).dom().contains(k),
        assoc_map(s)[k] == s[i].1,
        assoc_map(s.remove(i)) == assoc_map(s).remove(k),
        keys_unique(s.remove(i)),
        !has_key(s.remove(i), k),
    decreases s.len(),
{
    let s2 = s.drop_last();
    let p = s.last();
    lemma_assoc_dom(s2);
    lemma_assoc_dom(s.remove(i));
    if i == s.len() - 1 {
        assert(s.remove(i) =~= s2);
        assert(!has_key(s2, k));
        assert(assoc_map(s).remove(k) =~= assoc_map(s2));
    } else {
        assert(p.0 != k);
        assert(s.remove(i) =~= s2.remove(i).push(p));
        assert(keys_unique(s2));
        lemma_assoc_remove(s2, i, k);
        assert(s2.remove(i).push(p).drop_last() =~= s2.remove(i));
        assert(assoc_map(s.remove(i)) == assoc_map(s2.remove(i)).insert(p.0, p.1));
        assert(assoc_map(s).remove(k) =~= assoc_map(s2).remove(k).insert(p.0, p.1));
    }
}

/// The transfer table: the mapping from token to the in-flight request it
/// identifies. Owned by the multiplex loop alone; entries are added when a
/// transfer starts and removed exactly once on completion.
pub struct TransferTable {
    entries: Vec<(usize, Request)>,
}

impl View for TransferTable {
    type V = Map<usize, Request>;

    closed spec fn view(&self) -> Map<usize, Request> {
        assoc_map(self.entries@)
    }
}

impl TransferTable {
    /// Well-formed: no token is bound twice.
    pub closed spec fn wf(&self) -> bool {
        keys_unique(self.entries@)
    }

    /// How many transfers are in flight.
    pub closed spec fn spec_len(&self) -> nat {
        self.entries@.len()
    }

    pub fn new() -> (t: Self)
        ensures
            t.wf(),
            t@ == Map::<usize, Request>::empty(),
            t.spec_len() == 0,
    {
        Self { entries: Vec::new() }
    }

    pub fn len(&self) -> (n: usize)
        ensures
            n == self.spec_len(),
    {
        self.entries.len()
    }

    #[verifier::loop_isolation(false)]
    pub fn contains(&self, token: usize) -> (b: bool)
        ensures
            b == self@.dom().contains(token),
    {
        proof {
            lemma_assoc_dom(self.entries@);
        }
        let mut j: usize = 0;
        while j < self.entries.len()
            invariant
                0 <= j <= self.entries@.len(),
                forall|jj: int| 0 <= jj < j ==> self.entries@[jj].0 != token,
            decreases self.entries@.len() - j,
        {
            if self.entries[j].0 == token {
                proof {
                    assert(self.entries@[j as int].0 == token);
                    assert(has_key(self.entries@, token));
                }
                return true;
            }
            j = j + 1;
        }
        false
    }

    /// Bind a fresh token to its request.
    pub fn insert(&mut self, token: usize, request: Request)
        requires
            old(self).wf(),
            !old(self)@.dom().contains(token),
        ensures
            final(self).wf(),
            final(self)@ == old(self)@.insert(token, request),
            final(self).spec_len() == old(self).spec_len() + 1,
    {
        proof {
            lemma_assoc_dom(self.entries@);
        }
        self.entries.push((token, request));
        proof {
            assert(self.entries@.drop_last() =~= old(self).entries@);
        }
    }

    /// Take the request bound to a token out of the table. The token must be
    /// present: a miss is an invariant violation, never expected in correct
    /// operation, so no call may risk it.
    #[verifier::loop_isolation(false)]
    pub fn remove(&mut self, token: usize) -> (r: Request)
        requires
            old(self).wf(),
            old(self)@.dom().contains(token),
        ensures
            final(self).wf(),
            final(self)@ == old(self)@.remove(token),
            r == old(self)@[token],
            final(self).spec_len() == old(self).spec_len() - 1,
    {
        proof {
            lemma_assoc_dom(self.entries@);
        }
        let ghost s0 = self.entries@;
        let mut j: usize = 0;
        while j < self.entries.len()
            invariant
                self.entries@ == s0,
                0 <= j <= s0.len(),
                forall|jj: int| 0 <= jj < j ==> s0[jj].0 != token,
            decreases s0.len() - j,
        {
            if self.entries[j].0 == token {
                proof {
                    lemma_assoc_remove(s0, j as int, token);
                }
                let pair = self.entries.remove(j);
                return pair.1;
            }
            j = j + 1;
        }
        proof {
            assert(!has_key(s0, token));
            assert(false);
        }
        unreached()
    }
}

/// The ready queue: ordered entries awaiting admission to the multiplex
/// loop, first in, first out. The embedding program shares it under a mutex
/// between the transform-pool workers that append and the multiplex loop
/// that drains.
pub struct ReadyQueue {
    entries: Vec<MidProduct>,
}

impl View for ReadyQueue {
    type V = Seq<MidProduct>;

    closed spec fn view(&self) -> Seq<MidProduct> {
        self.entries@
    }
}

impl ReadyQueue {
    pub fn new() -> (q: Self)
        ensures
            q@ == Seq::<MidProduct>::empty(),
    {
        Self { entries: Vec::new() }
    }

    pub fn len(&self) -> (n: usize)
        ensures
            n == self@.len(),
    {
        self.entries.len()
    }

    /// Append one entry at the back.
    pub fn push(&mut self, entry: MidProduct)
        ensures
            final(self)@ == old(self)@.push(entry),
    {
        self.entries.push(entry);
    }

    /// Take up to `up_to` entries from the front, oldest first.
    #[verifier::loop_isolation(false)]
    fn drain(&mut self, up_to: usize) -> (out: Vec<MidProduct>)
        ensures
            ({
                let k = if up_to <= old(self)@.len() {
                    up_to as int
                } else {
                    old(self)@.len() as int
                };
                &&& out@ == old(self)@.take(k)
                &&& final(self)@ == old(self)@.skip(k)
            }),
    {
        let ghost s0 = self.entries@;
        let k = if up_to <= self.entries.len() {
            up_to
        } else {
            self.entries.len()
        };
        let mut out: Vec<MidProduct> = Vec::new();
        let mut j: usize = 0;
        proof {
            assert(out@ =~= s0.take(0));
            assert(self.entries@ =~= s0.skip(0));
        }
        while j < k
            invariant
                0 <= j <= k <= s0.len(),
                out@ == s0.take(j as int),
                self.entries@ == s0.skip(j as int),
            decreases k - j,
        {
            let e = self.entries.remove(0);
            out.push(e);
            proof {
                assert(s0.skip(j as int).remove(0) =~= s0.skip(j as int + 1));
                assert(s0.skip(j as int)[0] == s0[j as int]);
                assert(s0.take(j as int).push(s0[j as int]) =~= s0.take(j as int + 1));
            }
            j = j + 1;
        }
        out
    }
}

/// What the multiplex loop must carry out for one admitted entry.
pub enum StartAction {
    /// Register a transfer so configured with the engine, under this token.
    Register(TransferConfig, usize),
    /// Hand this response straight to this callback on the callback pool,
    /// bypassing the transfer engine.
    Invoke(CallBack, Response),
}

/// What the transfer engine reported for one finished transfer.
pub enum TransferOutcome {
    /// The exchange succeeded: body bytes, header lines, and the redirect
    /// target the engine resolved, if it followed one.
    Success { body: Vec<u8>, headers: Vec<String>, redirect: Option<String> },
    /// The exchange failed; the error is logged and the branch ends.
    Failure { error: String },
}

/// What the loop does after the engine's non-blocking step.
#[derive(Debug, PartialEq)]
pub enum LoopStep {
    /// Transfers are active: collect completions and go on.
    Work,
    /// Nothing in flight but the crawl is not finished: idle briefly.
    Backoff,
    /// Nothing in flight and the finished flag is set: the loop terminates.
    Stop,
}

/// Whether an entry registers a transfer when admitted.
pub open spec fn entry_registers(entry: MidProduct) -> bool {
    entry is ReadyTransfer || entry is PendingRequest
}

/// How many of these entries register a transfer.
pub open spec fn reg_count(es: Seq<MidProduct>) -> int
    decreases es.len(),
{
    if es.len() == 0 {
        0
    } else {
        reg_count(es.drop_last()) + if entry_registers(es.last()) {
            1int
        } else {
            0int
        }
    }
}

proof fn lemma_reg_count_bounds(es: Seq<MidProduct>)
    ensures
        0 <= reg_count(es) <= es.len(),
    decreases es.len(),
{
    if es.len() > 0 {
        lemma_reg_count_bounds(es.drop_last());
    }
}

/// The transfer table after admitting these entries in order, tokens drawn
/// from `tok0` on.
pub open spec fn table_after(
    m: Map<usize, Request>,
    tok0: int,
    es: Seq<MidProduct>,
) -> Map<usize, Request>
    decreases es.len(),
{
    if es.len() == 0 {
        m
    } else {
        let prev = es.drop_last();
        let t = (tok0 + reg_count(prev)) as usize;
        match es.last() {
            MidProduct::ReadyTransfer(_cfg, req) => table_after(m, tok0, prev).insert(t, req),
            MidProduct::PendingRequest(req) => table_after(m, tok0, prev).insert(t, req),
            _ => table_after(m, tok0, prev),
        }
    }
}

/// The tokens issued while admitting these entries in order, oldest first.
pub open spec fn tokens_issued(tok0: int, es: Seq<MidProduct>) -> Seq<usize>
    decreases es.len(),
{
    if es.len() == 0 {
        Seq::empty()
    } else {
        let prev = es.drop_last();
        let t = (tok0 + reg_count(prev)) as usize;
        if entry_registers(es.last()) {
            tokens_issued(tok0, prev).push(t)
        } else {
            tokens_issued(tok0, prev)
        }
    }
}

/// The actions owed for these admitted entries, in order: one `Register`
/// with the next fresh token for every transfer-bound entry — the default
/// GET where the middleware left the request pending — one `Invoke` for
/// every ready response, and nothing at all for `Ignore`.
pub open spec fn actions_for(tok0: int, es: Seq<MidProduct>, actions: Seq<StartAction>) -> bool
    decreases es.len(),
{
    if es.len() == 0 {
        actions.len() == 0
    } else {
        let prev = es.drop_last();
        let t = (tok0 + reg_count(prev)) as usize;
        match es.last() {
            MidProduct::Ignore => actions_for(tok0, prev, actions),
            MidProduct::ReadyResponse(resp, cb) => {
                &&& actions.len() > 0
                &&& actions.last() == StartAction::Invoke(cb, resp)
                &&& actions_for(tok0, prev, actions.drop_last())
            },
            MidProduct::ReadyTransfer(cfg, _req) => {
                &&& actions.len() > 0
                &&& actions.last() == StartAction::Register(cfg, t)
                &&& actions_for(tok0, prev, actions.drop_last())
            },
            MidProduct::PendingRequest(req) => {
                &&& actions.len() > 0
                &&& (actions.last() matches StartAction::Register(cfg, t2)
                    && t2 == t
                    && is_default_get(cfg, req.url@))
                &&& actions_for(tok0, prev, actions.drop_last())
            },
        }
    }
}

/// The verified scheduler core: the token counter, the transfer table, and
/// the finished flag, as one instance of the multiplex loop owns them.
///
/// `issued` records every token ever drawn, so that uniqueness over the
/// instance's whole lifetime is a stated, proved invariant and not a
/// convention.
pub struct Scheduler {
    pool_size: usize,
    token_counter: usize,
    transfers: TransferTable,
    finished: bool,
    issued: Ghost<Seq<usize>>,
}

impl Scheduler {
    pub closed spec fn spec_pool_size(&self) -> usize {
        self.pool_size
    }

    pub closed spec fn spec_token_counter(&self) -> usize {
        self.token_counter
    }

    /// The transfer table, read as a mapping from token to request.
    pub closed spec fn spec_transfers(&self) -> Map<usize, Request> {
        self.transfers@
    }

    /// How many transfers are in flight.
    pub closed spec fn spec_in_flight(&self) -> nat {
        self.transfers.spec_len()
    }

    pub closed spec fn spec_finished(&self) -> bool {
        self.finished
    }

    /// Every token ever issued by this instance, in order of issue.
    pub closed spec fn spec_issued(&self) -> Seq<usize> {
        self.issued@
    }

    /// The scheduler's invariant: the table is a mapping; in-flight work
    /// never exceeds twice the pool size; every issued token is below the
    /// counter; tokens were issued in strictly growing order; and the table
    /// only holds issued tokens.
    pub closed spec fn wf(&self) -> bool {
        &&& self.transfers.wf()
        &&& 2 * self.pool_size <= usize::MAX
        &&& self.transfers.spec_len() <= 2 * self.pool_size
        &&& (forall|i: int|
            0 <= i < self.issued@.len() ==> #[trigger] self.issued@[i] < self.token_counter)
        &&& (forall|i: int, j: int|
            0 <= i < j < self.issued@.len() ==> self.issued@[i] < self.issued@[j])
        &&& (forall|t: usize| self.transfers@.dom().contains(t) ==> self.issued@.contains(t))
    }

    /// A fresh scheduler around pools of this size: nothing in flight, no
    /// token drawn, not finished.
    pub fn new(pool_size: usize) -> (s: Self)
        requires
            pool_size <= usize::MAX / 2,
        ensures
            s.wf(),
            s.spec_pool_size() == pool_size,
            s.spec_token_counter() == 0,
            s.spec_transfers() == Map::<usize, Request>::empty(),
            s.spec_in_flight() == 0,
            !s.spec_finished(),
            s.spec_issued() == Seq::<usize>::empty(),
    {
        Self {
            pool_size,
            token_counter: 0,
            transfers: TransferTable::new(),
            finished: false,
            issued: Ghost(Seq::<usize>::empty()),
        }
    }

    pub fn in_flight(&self) -> (n: usize)
        ensures
            n == self.spec_in_flight(),
    {
        self.transfers.len()
    }

    pub fn is_finished(&self) -> (b: bool)
        ensures
            b == self.spec_finished(),
    {
        self.finished
    }

    /// How many tokens this instance has drawn so far.
    pub fn tokens_drawn(&self) -> (n: usize)
        ensures
            n == self.spec_token_counter(),
    {
        self.token_counter
    }

    /// Whether this token is bound to an in-flight transfer.
    pub fn has_transfer(&self, token: usize) -> (b: bool)
        ensures
            b == self.spec_transfers().dom().contains(token),
    {
        self.transfers.contains(token)
    }

    /// Record that the dispatcher found the crawl exhausted. One-way: the
    /// flag never goes back to false.
    pub fn mark_finished(&mut self)
        ensures
            final(self).spec_finished(),
            final(self).spec_pool_size() == old(self).spec_pool_size(),
            final(self).spec_token_counter() == old(self).spec_token_counter(),
            final(self).spec_transfers() == old(self).spec_transfers(),
            final(self).spec_in_flight() == old(self).spec_in_flight(),
            final(self).spec_issued() == old(self).spec_issued(),
            old(self).wf() ==> final(self).wf(),
    {
        self.finished = true;
    }

    /// What the loop does once the engine reports how many transfers are
    /// still active: work on, back off while the crawl may still grow, or
    /// stop — exactly when nothing is active and the crawl is finished.
    pub fn io_step(&self, active_transfers: usize) -> (d: LoopStep)
        ensures
            d == (if active_transfers > 0 {
                LoopStep::Work
            } else if self.spec_finished() {
                LoopStep::Stop
            } else {
                LoopStep::Backoff
            }),
    {
        if active_transfers > 0 {
            LoopStep::Work
        } else if self.finished {
            LoopStep::Stop
        } else {
            LoopStep::Backoff
        }
    }

    /// How many ready entries one iteration may admit: the headroom left
    /// under twice the pool size.
    pub open spec fn spec_capacity(&self) -> int {
        if self.spec_in_flight() >= 2 * self.spec_pool_size() {
            0
        } else {
            2 * self.spec_pool_size() - self.spec_in_flight()
        }
    }

    pub fn admission_capacity(&self) -> (c: usize)
        requires
            self.wf(),
        ensures
            c == self.spec_capacity(),
    {
        let cap = 2 * self.pool_size;
        let in_flight = self.transfers.len();
        if in_flight >= cap {
            0
        } else {
            cap - in_flight
        }
    }

    /// Carry out one admitted entry: register a transfer under a fresh token
    /// for a ready or pending request, hand a ready response to its
    /// callback, and let an `Ignore` pass with no effect at all.
    pub fn dispatch_entry(&mut self, entry: MidProduct) -> (a: Option<StartAction>)
        requires
            old(self).wf(),
            entry_registers(entry) ==> {
                &&& old(self).spec_in_flight() < 2 * old(self).spec_pool_size()
                &&& old(self).spec_token_counter() < usize::MAX
            },
        ensures
            final(self).wf(),
            final(self).spec_pool_size() == old(self).spec_pool_size(),
            final(self).spec_finished() == old(self).spec_finished(),
            (match entry {
                MidProduct::ReadyTransfer(cfg, req) => {
                    &&& a == Some(StartAction::Register(cfg, old(self).spec_token_counter()))
                    &&& final(self).spec_transfers() == old(self).spec_transfers().insert(
                        old(self).spec_token_counter(),
                        req,
                    )
                    &&& final(self).spec_in_flight() == old(self).spec_in_flight() + 1
                    &&& final(self).spec_token_counter() == old(self).spec_token_counter() + 1
                    &&& final(self).spec_issued() == old(self).spec_issued().push(
                        old(self).spec_token_counter(),
                    )
                },
                MidProduct::PendingRequest(req) => {
                    &&& (a matches Some(StartAction::Register(cfg, t))
                        && t == old(self).spec_token_counter()
                        && is_default_get(cfg, req.url@))
                    &&& final(self).spec_transfers() == old(self).spec_transfers().insert(
                        old(self).spec_token_counter(),
                        req,
                    )
                    &&& final(self).spec_in_flight() == old(self).spec_in_flight() + 1
                    &&& final(self).spec_token_counter() == old(self).spec_token_counter() + 1
                    &&& final(self).spec_issued() == old(self).spec_issued().push(
                        old(self).spec_token_counter(),
                    )
                },
                MidProduct::ReadyResponse(resp, cb) => {
                    &&& a == Some(StartAction::Invoke(cb, resp))
                    &&& final(self).spec_transfers() == old(self).spec_transfers()
                    &&& final(self).spec_in_flight() == old(self).spec_in_flight()
                    &&& final(self).spec_token_counter() == old(self).spec_token_counter()
                    &&& final(self).spec_issued() == old(self).spec_issued()
                },
                MidProduct::Ignore => {
                    &&& a is None
                    &&& final(self).spec_transfers() == old(self).spec_transfers()
                    &&& final(self).spec_in_flight() == old(self).spec_in_flight()
                    &&& final(self).spec_token_counter() == old(self).spec_token_counter()
                    &&& final(self).spec_issued() == old(self).spec_issued()
                },
            }),
    {
        match entry {
            MidProduct::ReadyTransfer(cfg, req) => {
                let token = self.register(req);
                Some(StartAction::Register(cfg, token))
            },
            MidProduct::PendingRequest(req) => {
                let cfg = TransferConfig::default_get(req.url.clone());
                let token = self.register(req);
                Some(StartAction::Register(cfg, token))
            },
            MidProduct::ReadyResponse(resp, cb) => Some(StartAction::Invoke(cb, resp)),
            MidProduct::Ignore => None,
        }
    }

    /// Bind a fresh token to a request about to start its transfer.
    fn register(&mut self, req: Request) -> (token: usize)
        requires
            old(self).wf(),
            old(self).spec_in_flight() < 2 * old(self).spec_pool_size(),
            old(self).spec_token_counter() < usize::MAX,
        ensures
            final(self).wf(),
            token == old(self).spec_token_counter(),
            final(self).spec_token_counter() == old(self).spec_token_counter() + 1,
            final(self).spec_transfers() == old(self).spec_transfers().insert(token, req),
            final(self).spec_in_flight() == old(self).spec_in_flight() + 1,
            final(self).spec_issued() == old(self).spec_issued().push(token),
            final(self).spec_pool_size() == old(self).spec_pool_size(),
            final(self).spec_finished() == old(self).spec_finished(),
    {
        let token = next_token(&mut self.token_counter);
        proof {
            if self.transfers@.dom().contains(token) {
                assert(self.issued@.contains(token));
                let i = choose|i: int| 0 <= i < self.issued@.len() && self.issued@[i] == token;
                assert(self.issued@[i] < token);
                assert(false);
            }
        }
        self.transfers.insert(token, req);
        proof {
            self.issued@ = self.issued@.push(token);
            assert forall|i: int| 0 <= i < self.issued@.len() implies #[trigger] self.issued@[i]
                < self.token_counter by {
                if i < self.issued@.len() - 1 {
                    assert(self.issued@[i] == old(self).issued@[i]);
                }
            }
            assert forall|i: int, j: int|
                0 <= i < j < self.issued@.len() implies self.issued@[i] < self.issued@[j] by {
                if j == self.issued@.len() - 1 {
                    assert(self.issued@[i] == old(self).issued@[i]);
                    assert(old(self).issued@[i] < token);
                }
            }
            assert forall|t: usize|
                self.transfers@.dom().contains(t) implies self.issued@.contains(t) by {
                if t == token {
                    assert(self.issued@[self.issued@.len() - 1] == token);
                } else {
                    assert(old(self).transfers@.dom().contains(t));
                    assert(old(self).issued@.contains(t));
                    let i = choose|i: int|
                        0 <= i < old(self).issued@.len() && old(self).issued@[i] == t;
                    assert(self.issued@[i] == t);
                }
            }
        }
        token
    }

    /// One iteration's admission and dispatch: drain from the ready queue,
    /// oldest first, up to the capacity left under twice the pool size, and
    /// carry out every drained entry. The returned actions are owed to the
    /// engine and the callback pool, in the drained order.
    #[verifier::loop_isolation(false)]
    pub fn admit_ready(&mut self, queue: &mut ReadyQueue) -> (actions: Vec<StartAction>)
        requires
            old(self).wf(),
            old(self).spec_token_counter() + old(queue)@.len() <= usize::MAX,
        ensures
            final(self).wf(),
            ({
                let k = if old(self).spec_capacity() <= old(queue)@.len() {
                    old(self).spec_capacity()
                } else {
                    old(queue)@.len() as int
                };
                let admitted = old(queue)@.take(k);
                let tok0 = old(self).spec_token_counter() as int;
                &&& final(queue)@ == old(queue)@.skip(k)
                &&& actions_for(tok0, admitted, actions@)
                &&& actions@.len() <= k
                &&& final(self).spec_transfers() == table_after(
                    old(self).spec_transfers(),
                    tok0,
                    admitted,
                )
                &&& final(self).spec_token_counter() == tok0 + reg_count(admitted)
                &&& final(self).spec_in_flight() == old(self).spec_in_flight() + reg_count(
                    admitted,
                )
                &&& final(self).spec_issued() == old(self).spec_issued() + tokens_issued(
                    tok0,
                    admitted,
                )
                &&& final(self).spec_finished() == old(self).spec_finished()
                &&& final(self).spec_pool_size() == old(self).spec_pool_size()
            }),
    {
        let cap = self.admission_capacity();
        let mut drained = queue.drain(cap);
        let ghost admitted = drained@;
        let ghost tok0 = self.token_counter as int;
        let ghost m0 = self.transfers@;
        let ghost iss0 = self.issued@;
        let ghost if0 = self.spec_in_flight();
        let mut actions: Vec<StartAction> = Vec::new();
        let mut i: usize = 0;
        proof {
            assert(admitted.take(0) =~= Seq::<MidProduct>::empty());
            assert(admitted.skip(0) =~= admitted);
            assert(iss0 + tokens_issued(tok0, admitted.take(0)) =~= iss0);
        }
        while drained.len() > 0
            invariant
                0 <= i <= admitted.len(),
                drained@ == admitted.skip(i as int),
                actions_for(tok0, admitted.take(i as int), actions@),
                self.transfers@ == table_after(m0, tok0, admitted.take(i as int)),
                self.token_counter as int == tok0 + reg_count(admitted.take(i as int)),
                self.spec_in_flight() == if0 + reg_count(admitted.take(i as int)),
                self.issued@ == iss0 + tokens_issued(tok0, admitted.take(i as int)),
                self.spec_finished() == old(self).spec_finished(),
                self.spec_pool_size() == old(self).spec_pool_size(),
                self.wf(),
                actions@.len() <= i,
            decreases drained@.len(),
        {
            proof {
                lemma_reg_count_bounds(admitted.take(i as int));
                assert(admitted.skip(i as int)[0] == admitted[i as int]);
            }
            let entry = drained.remove(0);
            let ghost pre = *self;
            let ghost acts_pre = actions@;
            proof {
                if entry_registers(entry) {
                    assert(if0 + admitted.len() <= 2 * self.pool_size);
                }
            }
            let a = self.dispatch_entry(entry);
            match a {
                Some(act) => actions.push(act),
                None => (),
            }
            proof {
                assert(admitted.take(i as int + 1).drop_last() =~= admitted.take(i as int));
                assert(admitted.take(i as int + 1).last() == admitted[i as int]);
                assert(drained@ =~= admitted.skip(i as int + 1));
                let t = (tok0 + reg_count(admitted.take(i as int))) as usize;
                assert(t == pre.spec_token_counter());
                if entry_registers(admitted[i as int]) {
                    assert(self.issued@ =~= iss0 + tokens_issued(tok0, admitted.take(i as int + 1)));
                }
                match admitted[i as int] {
                    MidProduct::Ignore => {
                        assert(actions@ == acts_pre);
                    },
                    _ => {
                        assert(actions@.drop_last() =~= acts_pre);
                    },
                }
            }
            i = i + 1;
        }
        proof {
            assert(admitted.take(i as int) =~= admitted);
        }
        actions
    }

    /// Resolve one completed transfer. The token's entry leaves the table —
    /// exactly once, since the token must be present and is never issued
    /// again. Success yields the originating request's callback and the
    /// response built from what the engine reported, its URL the resolved
    /// redirect target if there was one, else the request's own URL. Failure
    /// yields nothing: the branch of exploration ends.
    pub fn complete_transfer(&mut self, token: usize, outcome: TransferOutcome) -> (r: Option<
        (CallBack, Response),
    >)
        requires
            old(self).wf(),
            old(self).spec_transfers().dom().contains(token),
        ensures
            final(self).wf(),
            final(self).spec_transfers() == old(self).spec_transfers().remove(token),
            final(self).spec_in_flight() == old(self).spec_in_flight() - 1,
            final(self).spec_token_counter() == old(self).spec_token_counter(),
            final(self).spec_issued() == old(self).spec_issued(),
            final(self).spec_finished() == old(self).spec_finished(),
            final(self).spec_pool_size() == old(self).spec_pool_size(),
            (match outcome {
                TransferOutcome::Success { body, headers, redirect } => (r matches Some(
                    (cb, resp),
                ) && {
                    &&& cb == old(self).spec_transfers()[token].callback
                    &&& resp.spec_data() == body@
                    &&& resp.spec_headers() == headers@
                    &&& resp.spec_url() == (match redirect {
                        Some(u) => u@,
                        None => old(self).spec_transfers()[token].url@,
                    })
                }),
                TransferOutcome::Failure { .. } => r is None,
            }),
    {
        let req = self.transfers.remove(token);
        match outcome {
            TransferOutcome::Success { body, headers, redirect } => {
                let url = match redirect {
                    Some(u) => u,
                    None => req.url,
                };
                let resp = Response::from_parts(url, headers, body);
                Some((req.callback, resp))
            },
            TransferOutcome::Failure { error: _ } => None,
        }
    }
}

/// Admission bound: in a well-formed scheduler the in-flight count never
/// exceeds twice the pool size — admission drains the ready queue only up
/// to the headroom left under that bound.
pub proof fn lemma_in_flight_bounded(s: Scheduler)
    requires
        s.wf(),
    ensures
        s.spec_in_flight() <= 2 * s.spec_pool_size(),
{
}

/// Tokens are pairwise distinct over an instance's whole lifetime: the
/// issue order is strictly growing, so no two draws ever returned the same
/// token.
pub proof fn lemma_tokens_pairwise_distinct(s: Scheduler)
    requires
        s.wf(),
    ensures
        forall|i: int, j: int|
            0 <= i < j < s.spec_issued().len() ==> s.spec_issued()[i] != s.spec_issued()[j],
{
}

/// A token, once issued, is never issued again: every token this instance
/// ever drew lies below the counter, and the next draw is the counter
/// itself.
pub proof fn lemma_token_never_reused(s: Scheduler)
    requires
        s.wf(),
    ensures
        !s.spec_issued().contains(s.spec_token_counter()),
{
    if s.spec_issued().contains(s.spec_token_counter()) {
        let i = choose|i: int|
            0 <= i < s.spec_issued().len() && s.spec_issued()[i] == s.spec_token_counter();
        assert(s.spec_issued()[i] < s.spec_token_counter());
    }
}

/// At-most-once callback: resolving a token hands its callback out and
/// removes the binding, and no later admission — whatever entries it brings —
/// ever binds that token again, because admission only draws tokens at or
/// above the counter while every table token was issued below it. So one
/// token yields a callback at most once over the instance's lifetime.
pub proof fn lemma_at_most_once_callback(s: Scheduler, t: usize, es: Seq<MidProduct>)
    requires
        s.wf(),
        s.spec_transfers().dom().contains(t),
        s.spec_token_counter() + reg_count(es) <= usize::MAX,
    ensures
        !table_after(
            s.spec_transfers().remove(t),
            s.spec_token_counter() as int,
            es,
        ).dom().contains(t),
{
    assert(s.spec_issued().contains(t));
    let i = choose|i: int| 0 <= i < s.spec_issued().len() && s.spec_issued()[i] == t;
    assert(s.spec_issued()[i] < s.spec_token_counter());
    lemma_completed_token_stays_out(
        s.spec_transfers().remove(t),
        s.spec_token_counter() as int,
        es,
        t,
    );
}

/// A completed token never returns to the transfer table: admission only
/// binds tokens drawn at or above the current counter, so a token below it
/// that is out of the table stays out, whatever is admitted afterwards.
pub proof fn lemma_completed_token_stays_out(
    m: Map<usize, Request>,
    tok0: int,
    es: Seq<MidProduct>,
    t: usize,
)
    requires
        0 <= tok0,
        t < tok0,
        tok0 + reg_count(es) <= usize::MAX,
        !m.dom().contains(t),
    ensures
        !table_after(m, tok0, es).dom().contains(t),
    decreases es.len(),
{
    if es.len() > 0 {
        let prev = es.drop_last();
        lemma_reg_count_bounds(prev);
        lemma_reg_count_bounds(es);
        assert(reg_count(prev) <= reg_count(es));
        lemma_completed_token_stays_out(m, tok0, prev, t);
    }
}

} // verus!

