//! The poller's decisions between telemetry requests: which ports to keep
//! after a rediscovery, when a stats sample only seeds the baseline, and
//! how many queues to track.

use vstd::prelude::*;
use crate::model::port::{PortInfo, PortStats};
use crate::rates::{port_stats_delta, spec_stats_delta};

verus! {

/// A port after rediscovery: one already known (by its index in the
/// known list) or a newly listed one (by its id).
#[derive(Clone, Copy, Debug, PartialEq, Eq, Structural)]
pub enum PortSlot {
    Existing(usize),
    New(u16),
}

/// The known ids followed by each listed id not yet among them, in the
/// order listed (each id added once).
pub open spec fn with_new_ids(known: Seq<u16>, listed: Seq<u16>) -> Seq<u16>
    decreases listed.len(),
{
    if listed.len() == 0 {
        known
    } else {
        let acc = with_new_ids(known, listed.drop_last());
        if acc.contains(listed.last()) { acc } else { acc.push(listed.last()) }
    }
}

/// The slot for position `i` of `with_new_ids`.
pub open spec fn slot_at(known: Seq<u16>, all: Seq<u16>, i: int) -> PortSlot {
    if i < known.len() { PortSlot::Existing(i as usize) } else { PortSlot::New(all[i]) }
}

/// Slots for positions `0..n` of `all` whose ids are listed.
pub open spec fn kept_slots(known: Seq<u16>, all: Seq<u16>, listed: Seq<u16>, n: int) -> Seq<PortSlot>
    decreases n,
{
    if n <= 0 {
        Seq::empty()
    } else {
        let rest = kept_slots(known, all, listed, n - 1);
        if listed.contains(all[n - 1]) { rest.push(slot_at(known, all, n - 1)) } else { rest }
    }
}

/// The ports after rediscovery: known ports first, then newly listed ones
/// in the order listed, keeping only those that are listed.
pub open spec fn spec_discovery_plan(known: Seq<u16>, listed: Seq<u16>) -> Seq<PortSlot> {
    let all = with_new_ids(known, listed);
    kept_slots(known, all, listed, all.len() as int)
}

proof fn lemma_with_new_ids_prefix(known: Seq<u16>, listed: Seq<u16>)
    ensures
        with_new_ids(known, listed).len() >= known.len(),
        with_new_ids(known, listed).take(known.len() as int) == known,
        forall|i: int| known.len() <= i < with_new_ids(known, listed).len()
            ==> listed.contains(#[trigger] with_new_ids(known, listed)[i]),
    decreases listed.len(),
{
    if listed.len() > 0 {
        let prev = listed.drop_last();
        lemma_with_new_ids_prefix(known, prev);
        let acc = with_new_ids(known, prev);
        assert forall|i: int| known.len() <= i < acc.len() implies listed.contains(#[trigger] acc[i]) by {
            assert(prev.contains(acc[i]));
            let k = choose|k: int| 0 <= k < prev.len() && prev[k] == acc[i];
            assert(listed[k] == acc[i]);
        }
        if !acc.contains(listed.last()) {
            assert(acc.push(listed.last()).take(known.len() as int) =~= acc.take(known.len() as int));
            assert(listed[listed.len() - 1] == listed.last());
        }
    }
}

fn contains_id(ids: &Vec<u16>, id: u16) -> (r: bool)
    ensures
        r == ids@.contains(id),
{
    let mut i: usize = 0;
    while i < ids.len()
        invariant
            i <= ids@.len(),
            forall|j: int| 0 <= j < i ==> ids@[j] != id,
        decreases ids@.len() - i,
    {
        if ids[i] == id {
            return true;
        }
        i = i + 1;
    }
    false
}

/// How the known ports change when the port list is re-read: ports no
/// longer listed are dropped, newly listed ports are appended in the order
/// listed; the result's slots name either a known port (by index) or a
/// new id.
pub fn plan_port_discovery(known: &Vec<u16>, listed: &Vec<u16>) -> (plan: Vec<PortSlot>)
    ensures
        plan@ == spec_discovery_plan(known@, listed@),
{
    let mut all: Vec<u16> = Vec::new();
    let mut i: usize = 0;
    while i < known.len()
        invariant
            i <= known@.len(),
            all@ == known@.take(i as int),
        decreases known@.len() - i,
    {
        all.push(known[i]);
        proof { assert(known@.take(i + 1) =~= known@.take(i as int).push(known@[i as int])); }
        i = i + 1;
    }
    assert(known@.take(known@.len() as int) =~= known@);
    assert(with_new_ids(known@, listed@.take(0)) == known@);
    let mut k: usize = 0;
    while k < listed.len()
        invariant
            k <= listed@.len(),
            all@ == with_new_ids(known@, listed@.take(k as int)),
        decreases listed@.len() - k,
    {
        proof {
            assert(listed@.take(k + 1).drop_last() =~= listed@.take(k as int));
            assert(listed@.take(k + 1).last() == listed@[k as int]);
        }
        let id = listed[k];
        if !contains_id(&all, id) {
            all.push(id);
        }
        k = k + 1;
    }
    assert(listed@.take(listed@.len() as int) =~= listed@);
    proof { lemma_with_new_ids_prefix(known@, listed@); }
    let mut plan: Vec<PortSlot> = Vec::new();
    let mut j: usize = 0;
    while j < all.len()
        invariant
            all@ == with_new_ids(known@, listed@),
            j <= all@.len(),
            plan@ == kept_slots(known@, all@, listed@, j as int),
        decreases all@.len() - j,
    {
        if contains_id(listed, all[j]) {
            let slot = if j < known.len() { PortSlot::Existing(j) } else { PortSlot::New(all[j]) };
            plan.push(slot);
        }
        j = j + 1;
    }
    plan
}

/// Every slot of a rediscovery plan is a listed port: an existing one
/// refers to a known port that is listed, a new one to a listed id that
/// was not known.
pub proof fn lemma_discovery_plan_sound(known: Seq<u16>, listed: Seq<u16>)
    requires
        known.len() <= usize::MAX,
    ensures
        forall|i: int| 0 <= i < spec_discovery_plan(known, listed).len() ==>
            match #[trigger] spec_discovery_plan(known, listed)[i] {
                PortSlot::Existing(t) => t < known.len() && listed.contains(known[t as int]),
                PortSlot::New(id) => listed.contains(id) && !known.contains(id),
            },
{
    lemma_with_new_ids_prefix(known, listed);
    let all = with_new_ids(known, listed);
    lemma_kept_slots_sound(known, listed, all.len() as int);
}

proof fn lemma_with_new_ids_fresh(known: Seq<u16>, listed: Seq<u16>, i: int)
    requires
        known.len() <= i < with_new_ids(known, listed).len(),
    ensures
        !known.contains(with_new_ids(known, listed)[i]),
    decreases listed.len(),
{
    let prev = listed.drop_last();
    let acc = with_new_ids(known, prev);
    lemma_with_new_ids_prefix(known, prev);
    if i < acc.len() {
        lemma_with_new_ids_fresh(known, prev, i);
    } else {
        assert(!acc.contains(listed.last()));
        if known.contains(listed.last()) {
            let k = choose|k: int| 0 <= k < known.len() && known[k] == listed.last();
            assert(acc.take(known.len() as int)[k] == acc[k]);
            assert(acc.contains(listed.last()));
        }
    }
}

proof fn lemma_kept_slots_sound(known: Seq<u16>, listed: Seq<u16>, n: int)
    requires
        known.len() <= usize::MAX,
        n <= with_new_ids(known, listed).len(),
    ensures
        forall|i: int| 0 <= i < kept_slots(known, with_new_ids(known, listed), listed, n).len() ==>
            match #[trigger] kept_slots(known, with_new_ids(known, listed), listed, n)[i] {
                PortSlot::Existing(t) => t < known.len() && listed.contains(known[t as int]),
                PortSlot::New(id) => listed.contains(id) && !known.contains(id),
            },
    decreases n,
{
    let all = with_new_ids(known, listed);
    lemma_with_new_ids_prefix(known, listed);
    if n > 0 {
        lemma_kept_slots_sound(known, listed, n - 1);
        if n - 1 < known.len() {
            assert(all.take(known.len() as int)[n - 1] == all[n - 1]);
            assert(known[n - 1] == all[n - 1]);
        } else {
            lemma_with_new_ids_fresh(known, listed, n - 1);
        }
    }
}

/// The port id a slot stands for.
pub open spec fn slot_id(known: Seq<u16>, slot: PortSlot) -> u16 {
    match slot {
        PortSlot::Existing(i) => known[i as int],
        PortSlot::New(id) => id,
    }
}

proof fn lemma_with_new_ids_has_listed(known: Seq<u16>, listed: Seq<u16>, id: u16)
    requires
        listed.contains(id),
    ensures
        with_new_ids(known, listed).contains(id),
    decreases listed.len(),
{
    let prev = listed.drop_last();
    let acc = with_new_ids(known, prev);
    if listed.last() == id {
        if !acc.contains(id) {
            assert(acc.push(id)[acc.len() as int] == id);
        }
    } else {
        let k = choose|k: int| 0 <= k < listed.len() && listed[k] == id;
        assert(k < listed.len() - 1);
        assert(prev[k] == id);
        lemma_with_new_ids_has_listed(known, prev, id);
        let j = choose|j: int| 0 <= j < acc.len() && acc[j] == id;
        if !acc.contains(listed.last()) {
            assert(acc.push(listed.last())[j] == id);
        }
    }
}

proof fn lemma_kept_slots_has(known: Seq<u16>, all: Seq<u16>, listed: Seq<u16>, n: int, k: int)
    requires
        0 <= k < n <= all.len(),
        listed.contains(all[k]),
    ensures
        kept_slots(known, all, listed, n).contains(slot_at(known, all, k)),
    decreases n,
{
    let rest = kept_slots(known, all, listed, n - 1);
    if k == n - 1 {
        assert(rest.push(slot_at(known, all, k))[rest.len() as int] == slot_at(known, all, k));
    } else {
        lemma_kept_slots_has(known, all, listed, n - 1, k);
        let j = choose|j: int| 0 <= j < rest.len() && rest[j] == slot_at(known, all, k);
        if listed.contains(all[n - 1]) {
            assert(rest.push(slot_at(known, all, n - 1))[j] == slot_at(known, all, k));
        }
    }
}

/// Every listed port id is in the plan after rediscovery (as a known port
/// or a new one).
pub proof fn lemma_discovery_plan_complete(known: Seq<u16>, listed: Seq<u16>, id: u16)
    requires
        known.len() <= usize::MAX,
        listed.contains(id),
    ensures
        exists|i: int| 0 <= i < spec_discovery_plan(known, listed).len()
            && slot_id(known, #[trigger] spec_discovery_plan(known, listed)[i]) == id,
{
    let all = with_new_ids(known, listed);
    lemma_with_new_ids_has_listed(known, listed, id);
    lemma_with_new_ids_prefix(known, listed);
    let k = choose|k: int| 0 <= k < all.len() && all[k] == id;
    lemma_kept_slots_has(known, all, listed, all.len() as int, k);
    let plan = spec_discovery_plan(known, listed);
    let i = choose|i: int| 0 <= i < plan.len() && plan[i] == slot_at(known, all, k);
    if k < known.len() {
        assert(all.take(known.len() as int)[k] == all[k]);
        assert(slot_id(known, plan[i]) == known[k]);
    }
}

/// A stats sample only seeds the baseline while no packets and no bytes
/// were received yet (the first sample of a port), so that the whole
/// cumulative counter is not taken for one interval's traffic.
pub fn needs_baseline(current: &PortStats) -> (b: bool)
    ensures
        b == (current.ipackets == 0 && current.ibytes == 0),
{
    current.ipackets == 0 && current.ibytes == 0
}

/// What a new stats sample does to a port's counters.
#[derive(Clone, Copy, Debug, PartialEq, Eq, Structural)]
pub struct SampleStep {
    /// The port's current counters afterwards.
    pub current: PortStats,
    /// The port's previous counters afterwards.
    pub previous: PortStats,
    /// How far the counters advanced, when rates are to be computed.
    pub delta: Option<PortStats>,
}

/// A new stats sample `sample` for a port whose counters are `current` and
/// `previous`: while `current` is the zero baseline the sample only seeds
/// it (no rates); otherwise the sample becomes current, the former current
/// becomes previous, and the counters' advance over the interval is given.
pub fn take_sample(current: PortStats, previous: PortStats, sample: PortStats) -> (r: SampleStep)
    ensures
        current.ipackets == 0 && current.ibytes == 0 ==> r == (SampleStep { current: sample, previous, delta: None }),
        !(current.ipackets == 0 && current.ibytes == 0) ==> r == (SampleStep {
            current: sample,
            previous: current,
            delta: Some(spec_stats_delta(sample, current)),
        }),
{
    if needs_baseline(&current) {
        SampleStep { current: sample, previous, delta: None }
    } else {
        SampleStep { current: sample, previous: current, delta: Some(port_stats_delta(&sample, &current)) }
    }
}

/// How many queues to track for a port: the larger of its RX and TX queue
/// counts, at least one.
pub fn queue_count(info: &PortInfo) -> (n: usize)
    ensures
        n as int == if info.nb_rx_queues == 0 && info.nb_tx_queues == 0 {
            1
        } else if info.nb_rx_queues >= info.nb_tx_queues {
            info.nb_rx_queues as int
        } else {
            info.nb_tx_queues as int
        },
{
    let m = if info.nb_rx_queues >= info.nb_tx_queues { info.nb_rx_queues } else { info.nb_tx_queues };
    let n = m as usize;
    if n > 1 { n } else { 1 }
}

/// How often ports and mempools are rediscovered, in nanoseconds (10 s).
pub const DISCOVERY_INTERVAL_NS: u64 = 10_000_000_000;
/// Pause between checks while connected, in milliseconds.
pub const CHECK_PAUSE_MS: u64 = 100;
/// Pause before reconnecting, in milliseconds.
pub const RECONNECT_PAUSE_MS: u64 = 2000;

/// Where the poller stands: which outcome it awaits.
#[derive(Clone, Copy, Debug, PartialEq, Eq, Structural)]
pub enum PollerPhase {
    /// About to (re)connect unless asked to stop.
    Start,
    AwaitConnect,
    AwaitFirstDiscovery,
    AwaitRediscovery,
    AwaitPoll,
    /// Pausing between checks while connected.
    AwaitCheckPause,
    /// Pausing before reconnecting.
    AwaitReconnectPause,
    Done,
}

/// The poller's state: its phase and when (on a monotonic clock, in
/// nanoseconds) it last polled and last discovered.
#[derive(Clone, Copy, Debug, PartialEq, Eq, Structural)]
pub struct PollerState {
    pub phase: PollerPhase,
    pub interval_ns: u64,
    pub last_poll_ns: u64,
    pub last_discovery_ns: u64,
}

/// What the poller observed after its last action: whether stopping was
/// requested, the clock, and whether the action (connect, discovery or
/// poll) succeeded.
#[derive(Clone, Copy, Debug, PartialEq, Eq, Structural)]
pub struct PollerEvent {
    pub shutdown: bool,
    pub now_ns: u64,
    pub ok: bool,
}

/// What the poller does next.
#[derive(Clone, Copy, Debug, PartialEq, Eq, Structural)]
pub enum PollerAction {
    Connect,
    /// Mark the instance connected and discover ports and mempools.
    ConnectedDiscover,
    Discover,
    /// Poll stats, `elapsed_ns` after the previous poll.
    Poll { elapsed_ns: u64 },
    /// Record that a poll completed at `at_ns`, then pause.
    RecordPollThenPause { at_ns: u64, ms: u64 },
    Pause { ms: u64 },
    /// Mark the instance disconnected, then pause before reconnecting.
    DisconnectedPause { ms: u64 },
    /// Stop polling: after a stop request (marking the instance
    /// disconnected) or after a failed discovery.
    Finish { failed: bool },
}

impl PollerState {
    /// A poller started at `now_ns` that polls every `interval_ns`.
    pub fn new(now_ns: u64, interval_ns: u64) -> (s: Self)
        ensures
            s == (PollerState {
                phase: PollerPhase::Start,
                interval_ns,
                last_poll_ns: now_ns,
                last_discovery_ns: now_ns,
            }),
    {
        PollerState { phase: PollerPhase::Start, interval_ns, last_poll_ns: now_ns, last_discovery_ns: now_ns }
    }
}

/// Time from `earlier` to `later`, zero if the clock reads earlier.
pub open spec fn since(later: u64, earlier: u64) -> u64 {
    if later >= earlier { (later - earlier) as u64 } else { 0 }
}

/// Poll if the interval has passed since the last poll, else pause.
pub open spec fn spec_poll_or_pause(s: PollerState, now: u64) -> (PollerState, PollerAction) {
    if since(now, s.last_poll_ns) >= s.interval_ns {
        (PollerState { phase: PollerPhase::AwaitPoll, last_poll_ns: now, ..s },
         PollerAction::Poll { elapsed_ns: since(now, s.last_poll_ns) })
    } else {
        (PollerState { phase: PollerPhase::AwaitCheckPause, ..s }, PollerAction::Pause { ms: CHECK_PAUSE_MS })
    }
}

/// One check while connected: stop the session when asked to, rediscover
/// every 10 s, else poll when due.
pub open spec fn spec_check(s: PollerState, ev: PollerEvent) -> (PollerState, PollerAction) {
    if ev.shutdown {
        (PollerState { phase: PollerPhase::AwaitReconnectPause, ..s }, PollerAction::Pause { ms: RECONNECT_PAUSE_MS })
    } else if since(ev.now_ns, s.last_discovery_ns) >= DISCOVERY_INTERVAL_NS {
        (PollerState { phase: PollerPhase::AwaitRediscovery, ..s }, PollerAction::Discover)
    } else {
        spec_poll_or_pause(s, ev.now_ns)
    }
}

/// The poller's next state and action after observing `ev`.
pub open spec fn spec_poller_step(s: PollerState, ev: PollerEvent) -> (PollerState, PollerAction) {
    match s.phase {
        PollerPhase::Start | PollerPhase::AwaitReconnectPause => if ev.shutdown {
            (PollerState { phase: PollerPhase::Done, ..s }, PollerAction::Finish { failed: false })
        } else {
            (PollerState { phase: PollerPhase::AwaitConnect, ..s }, PollerAction::Connect)
        },
        PollerPhase::AwaitConnect => if ev.ok {
            (PollerState { phase: PollerPhase::AwaitFirstDiscovery, ..s }, PollerAction::ConnectedDiscover)
        } else {
            (PollerState { phase: PollerPhase::AwaitReconnectPause, ..s },
             PollerAction::DisconnectedPause { ms: RECONNECT_PAUSE_MS })
        },
        PollerPhase::AwaitFirstDiscovery => if ev.ok {
            spec_check(PollerState { last_discovery_ns: ev.now_ns, ..s }, ev)
        } else {
            (PollerState { phase: PollerPhase::Done, ..s }, PollerAction::Finish { failed: true })
        },
        PollerPhase::AwaitRediscovery => if ev.ok {
            spec_poll_or_pause(PollerState { last_discovery_ns: ev.now_ns, ..s }, ev.now_ns)
        } else {
            (PollerState { phase: PollerPhase::Done, ..s }, PollerAction::Finish { failed: true })
        },
        PollerPhase::AwaitPoll => if ev.ok {
            (PollerState { phase: PollerPhase::AwaitCheckPause, ..s },
             PollerAction::RecordPollThenPause { at_ns: s.last_poll_ns, ms: CHECK_PAUSE_MS })
        } else {
            (PollerState { phase: PollerPhase::AwaitReconnectPause, ..s }, PollerAction::Pause { ms: RECONNECT_PAUSE_MS })
        },
        PollerPhase::AwaitCheckPause => spec_check(s, ev),
        PollerPhase::Done => (s, PollerAction::Finish { failed: false }),
    }
}

fn since_ns(later: u64, earlier: u64) -> (d: u64)
    ensures
        d == since(later, earlier),
{
    if later >= earlier { later - earlier } else { 0 }
}

fn poll_or_pause(s: PollerState, now: u64) -> (r: (PollerState, PollerAction))
    ensures
        r == spec_poll_or_pause(s, now),
{
    let e = since_ns(now, s.last_poll_ns);
    if e >= s.interval_ns {
        (PollerState { phase: PollerPhase::AwaitPoll, last_poll_ns: now, ..s }, PollerAction::Poll { elapsed_ns: e })
    } else {
        (PollerState { phase: PollerPhase::AwaitCheckPause, ..s }, PollerAction::Pause { ms: CHECK_PAUSE_MS })
    }
}

fn check(s: PollerState, ev: PollerEvent) -> (r: (PollerState, PollerAction))
    ensures
        r == spec_check(s, ev),
{
    if ev.shutdown {
        (PollerState { phase: PollerPhase::AwaitReconnectPause, ..s }, PollerAction::Pause { ms: RECONNECT_PAUSE_MS })
    } else if since_ns(ev.now_ns, s.last_discovery_ns) >= DISCOVERY_INTERVAL_NS {
        (PollerState { phase: PollerPhase::AwaitRediscovery, ..s }, PollerAction::Discover)
    } else {
        poll_or_pause(s, ev.now_ns)
    }
}

/// The poller's decisions between telemetry requests: connect (retrying
/// every 2 s, marking the instance disconnected on failure), discover once
/// connected, then check every 100 ms: rediscover every 10 s, poll once the
/// poll interval has passed, reconnect after a failed poll. A failed
/// discovery stops the poller; a stop request ends the session and then
/// the poller.
pub fn poller_step(s: PollerState, ev: PollerEvent) -> (r: (PollerState, PollerAction))
    ensures
        r == spec_poller_step(s, ev),
{
    match s.phase {
        PollerPhase::Start | PollerPhase::AwaitReconnectPause => if ev.shutdown {
            (PollerState { phase: PollerPhase::Done, ..s }, PollerAction::Finish { failed: false })
        } else {
            (PollerState { phase: PollerPhase::AwaitConnect, ..s }, PollerAction::Connect)
        },
        PollerPhase::AwaitConnect => if ev.ok {
            (PollerState { phase: PollerPhase::AwaitFirstDiscovery, ..s }, PollerAction::ConnectedDiscover)
        } else {
            (PollerState { phase: PollerPhase::AwaitReconnectPause, ..s },
             PollerAction::DisconnectedPause { ms: RECONNECT_PAUSE_MS })
        },
        PollerPhase::AwaitFirstDiscovery => if ev.ok {
            check(PollerState { last_discovery_ns: ev.now_ns, ..s }, ev)
        } else {
            (PollerState { phase: PollerPhase::Done, ..s }, PollerAction::Finish { failed: true })
        },
        PollerPhase::AwaitRediscovery => if ev.ok {
            poll_or_pause(PollerState { last_discovery_ns: ev.now_ns, ..s }, ev.now_ns)
        } else {
            (PollerState { phase: PollerPhase::Done, ..s }, PollerAction::Finish { failed: true })
        },
        PollerPhase::AwaitPoll => if ev.ok {
            (PollerState { phase: PollerPhase::AwaitCheckPause, ..s },
             PollerAction::RecordPollThenPause { at_ns: s.last_poll_ns, ms: CHECK_PAUSE_MS })
        } else {
            (PollerState { phase: PollerPhase::AwaitReconnectPause, ..s }, PollerAction::Pause { ms: RECONNECT_PAUSE_MS })
        },
        PollerPhase::AwaitCheckPause => check(s, ev),
        PollerPhase::Done => (s, PollerAction::Finish { failed: false }),
    }
}

/// Polls are never closer than the poll interval: a poll is ordered only
/// once the interval has passed since the previous one, and the poller
/// then remembers the new poll time. Once done, the poller stays done;
/// a stop request while not connected finishes it.
pub proof fn lemma_poller_step_laws(s: PollerState, ev: PollerEvent)
    ensures
        spec_poller_step(s, ev).1 matches PollerAction::Poll { elapsed_ns } ==> {
            &&& elapsed_ns >= s.interval_ns
            &&& spec_poller_step(s, ev).0.last_poll_ns == ev.now_ns
            &&& spec_poller_step(s, ev).0.phase == PollerPhase::AwaitPoll
        },
        s.phase == PollerPhase::Done ==> spec_poller_step(s, ev).0 == s,
        (s.phase == PollerPhase::Start || s.phase == PollerPhase::AwaitReconnectPause) && ev.shutdown
            ==> spec_poller_step(s, ev) == (PollerState { phase: PollerPhase::Done, ..s }, PollerAction::Finish { failed: false }),
        spec_poller_step(s, ev).0.interval_ns == s.interval_ns,
{
}


/// A stop request is obeyed while connected: a poller that is pausing
/// between checks, or whose first discovery just succeeded, orders no poll
/// and no discovery when asked to stop, and the next stop-requested step
/// finishes it, without failure.
pub proof fn lemma_stop_while_connected(s: PollerState, ev: PollerEvent, ev2: PollerEvent)
    requires
        ev.shutdown,
        ev2.shutdown,
        s.phase == PollerPhase::AwaitCheckPause || (s.phase == PollerPhase::AwaitFirstDiscovery && ev.ok),
    ensures
        !(spec_poller_step(s, ev).1 is Poll),
        spec_poller_step(s, ev).1 != PollerAction::Discover,
        spec_poller_step(spec_poller_step(s, ev).0, ev2).0.phase == PollerPhase::Done,
        spec_poller_step(spec_poller_step(s, ev).0, ev2).1 == (PollerAction::Finish { failed: false }),
{
}

/// The state and action after four steps.
pub open spec fn stop_steps(s: PollerState, e1: PollerEvent, e2: PollerEvent, e3: PollerEvent, e4: PollerEvent)
    -> (PollerState, PollerAction) {
    spec_poller_step(spec_poller_step(spec_poller_step(spec_poller_step(s, e1).0, e2).0, e3).0, e4)
}

/// A stop request ends the poller from any phase in at most four steps,
/// without failure (a poll or a discovery under way is let finish).
pub proof fn lemma_stop_reaches_done(s: PollerState, e1: PollerEvent, e2: PollerEvent, e3: PollerEvent, e4: PollerEvent)
    requires
        e1.shutdown && e2.shutdown && e3.shutdown && e4.shutdown,
        e1.ok && e2.ok && e3.ok && e4.ok,
    ensures
        stop_steps(s, e1, e2, e3, e4).0.phase == PollerPhase::Done,
        stop_steps(s, e1, e2, e3, e4).1 == (PollerAction::Finish { failed: false }),
{
}

} // verus!
