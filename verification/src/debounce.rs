use vstd::prelude::*;

verus! {

/// Quiet window for change-triggered pulls, in milliseconds.
pub const CHANGE_DEBOUNCE_MS: u64 = 120;

/// Quiet window for open-triggered pulls, in milliseconds: a freshly opened
/// file gets diagnostics quickly, without waiting on the edit window.
pub const OPEN_DEBOUNCE_MS: u64 = 50;

/// Spec-level image of a debounce engine: its fixed quiet window, the set of
/// coalescing keys accumulated in the current cycle, and the armed deadline,
/// if any.
pub struct HandlerModel {
    pub window: u64,
    pub pending: Set<u64>,
    pub deadline: Option<u64>,
}

/// What one incoming event does to an engine: its keys join the pending set
/// (a set — the same key twice within a window cannot produce two pulls) and
/// the deadline is re-armed at `now + window`, superseding any armed one.
pub open spec fn handle_event_model(m: HandlerModel, keys: Set<u64>, now: u64) -> HandlerModel
    recommends
        now + m.window <= u64::MAX,
{
    HandlerModel {
        window: m.window,
        pending: m.pending.union(keys),
        deadline: Some((now + m.window) as u64),
    }
}

/// Whether the engine's deadline has elapsed at this instant, so that the
/// finishing action may run. An idle engine never fires.
pub open spec fn can_fire(m: HandlerModel, now: u64) -> bool {
    match m.deadline {
        Some(d) => now >= d,
        None => false,
    }
}

/// One trigger event as the engine's model sees it: the keys it carries and
/// its arrival instant.
pub struct DebounceEvent {
    pub keys: Set<u64>,
    pub now: u64,
}

/// A sequence of events folded through the engine, oldest first.
pub open spec fn run_events(m: HandlerModel, events: Seq<DebounceEvent>) -> HandlerModel
    decreases events.len(),
{
    if events.len() == 0 {
        m
    } else {
        handle_event_model(run_events(m, events.drop_last()), events.last().keys, events.last().now)
    }
}

/// The union of the keys of a sequence of events.
pub open spec fn union_of_keys(events: Seq<DebounceEvent>) -> Set<u64>
    decreases events.len(),
{
    if events.len() == 0 {
        Set::empty()
    } else {
        union_of_keys(events.drop_last()).union(events.last().keys)
    }
}

/// After any nonempty run, the engine holds every key seen and is armed at
/// the last arrival plus the window.
pub proof fn lemma_run_events_form(m: HandlerModel, events: Seq<DebounceEvent>)
    requires
        events.len() > 0,
    ensures
        run_events(m, events).window == m.window,
        run_events(m, events).pending == m.pending.union(union_of_keys(events)),
        run_events(m, events).deadline == Some(((events.last().now + m.window) as u64)),
    decreases events.len(),
{
    if events.len() == 1 {
        assert(union_of_keys(events.drop_last()) =~= Set::<u64>::empty());
        assert(m.pending.union(union_of_keys(events)) =~= m.pending.union(events.last().keys));
    } else {
        lemma_run_events_form(m, events.drop_last());
        assert(m.pending.union(union_of_keys(events)) =~= m.pending.union(
            union_of_keys(events.drop_last()),
        ).union(events.last().keys));
    }
}

/// Law: for any burst of events in which each later event arrives within
/// less than the quiet window after its predecessor, the engine never
/// reaches a firing point between two events of the burst; after the last
/// event it is armed once, at the last arrival plus the window, holding
/// exactly the union of all keys of the burst. A single finishing step then
/// fires one cycle with that union.
pub proof fn lemma_burst_coalesces(m0: HandlerModel, events: Seq<DebounceEvent>)
    requires
        m0.pending == Set::<u64>::empty(),
        m0.deadline is None,
        events.len() > 0,
        forall|i: int| 0 <= i < events.len() ==> (#[trigger] events[i].now) + m0.window
            <= u64::MAX,
        forall|i: int| 0 < i < events.len() ==> (#[trigger] events[i].now) < events[i - 1].now
            + m0.window,
    ensures
        run_events(m0, events).window == m0.window,
        run_events(m0, events).pending == union_of_keys(events),
        run_events(m0, events).deadline == Some(((events.last().now + m0.window) as u64)),
        forall|i: int, t: u64|
            0 < i < events.len() && t <= events[i].now ==> !(#[trigger] can_fire(
                run_events(m0, events.take(i)),
                t,
            )),
{
    lemma_run_events_form(m0, events);
    assert(run_events(m0, events).pending =~= union_of_keys(events));
    assert forall|i: int, t: u64|
        0 < i < events.len() && t <= events[i].now implies !(#[trigger] can_fire(
        run_events(m0, events.take(i)),
        t,
    )) by {
        let prefix = events.take(i);
        lemma_run_events_form(m0, prefix);
        assert(prefix.last() == events[i - 1]);
        assert(run_events(m0, prefix).deadline == Some(
            ((events[i - 1].now + m0.window) as u64),
        ));
        assert(events[i].now < events[i - 1].now + m0.window);
    }
}

/// Law: a document-open event participates in the short open window
/// independently of any concurrent change-triggered cycle. The two engines
/// hold separate state: the open event arms the open engine at its own
/// arrival plus the open window, whatever the change engine holds, and each
/// engine can then fire at its own deadline — both may legitimately re-pull
/// the same document.
pub proof fn lemma_open_window_independent(
    open_engine: HandlerModel,
    change_engine: HandlerModel,
    doc_id: u64,
    change_keys: Set<u64>,
    now_open: u64,
    now_change: u64,
)
    requires
        open_engine.window == OPEN_DEBOUNCE_MS,
        now_open + OPEN_DEBOUNCE_MS <= u64::MAX,
        now_change + change_engine.window <= u64::MAX,
    ensures
        handle_event_model(open_engine, set![doc_id], now_open).deadline == Some(
            ((now_open + OPEN_DEBOUNCE_MS) as u64),
        ),
        handle_event_model(open_engine, set![doc_id], now_open).pending.contains(doc_id),
        can_fire(
            handle_event_model(open_engine, set![doc_id], now_open),
            ((now_open + OPEN_DEBOUNCE_MS) as u64),
        ),
        can_fire(
            handle_event_model(change_engine, change_keys, now_change),
            ((now_change + change_engine.window) as u64),
        ),
{
    assert(set![doc_id].contains(doc_id));
}

/// Per-cycle accumulator of one debounce engine instance: the pending
/// coalescing keys and the currently armed deadline. Created once, reused
/// for every cycle; an event-handling step feeds it, a deadline-firing step
/// drains it.
pub struct PullDiagnosticsHandler {
    window_ms: u64,
    pending: Vec<u64>,
    deadline: Option<u64>,
}

impl View for PullDiagnosticsHandler {
    type V = HandlerModel;

    closed spec fn view(&self) -> HandlerModel {
        HandlerModel {
            window: self.window_ms,
            pending: self.pending@.to_set(),
            deadline: self.deadline,
        }
    }
}

impl PullDiagnosticsHandler {
    /// The accumulated keys hold no duplicates.
    pub closed spec fn wf(&self) -> bool {
        forall|i: int, j: int|
            0 <= i < j < self.pending@.len() ==> self.pending@[i] != self.pending@[j]
    }

    /// A fresh engine for change-triggered pulls: the 120 ms window, idle,
    /// nothing pending.
    pub fn new() -> (r: PullDiagnosticsHandler)
        ensures
            r.wf(),
            r@ == (HandlerModel {
                window: CHANGE_DEBOUNCE_MS,
                pending: Set::<u64>::empty(),
                deadline: None::<u64>,
            }),
    {
        Self::with_window(CHANGE_DEBOUNCE_MS)
    }

    /// A fresh engine with the given quiet window; the open-triggered
    /// instance uses `OPEN_DEBOUNCE_MS`.
    pub fn with_window(window_ms: u64) -> (r: PullDiagnosticsHandler)
        ensures
            r.wf(),
            r@ == (HandlerModel {
                window: window_ms,
                pending: Set::<u64>::empty(),
                deadline: None::<u64>,
            }),
    {
        let r = PullDiagnosticsHandler { window_ms, pending: Vec::new(), deadline: None };
        proof {
            assert(r.pending@.to_set() =~= Set::<u64>::empty());
        }
        r
    }

    /// Merges one event's keys into the pending set and re-arms the deadline
    /// at `now + window`, superseding any armed one; returns the new
    /// deadline.
    pub fn handle_event(&mut self, keys: &Vec<u64>, now: u64) -> (deadline: Option<u64>)
        requires
            old(self).wf(),
            now + old(self)@.window <= u64::MAX,
        ensures
            final(self).wf(),
            final(self)@ == handle_event_model(old(self)@, keys@.to_set(), now),
            deadline == final(self)@.deadline,
    {
        let ghost old_set = self.pending@.to_set();
        let mut i: usize = 0;
        while i < keys.len()
            invariant
                self.wf(),
                i <= keys.len(),
                self.window_ms == old(self).window_ms,
                self.deadline == old(self).deadline,
                self.pending@.to_set() == old_set.union(keys@.take(i as int).to_set()),
            decreases keys.len() - i,
        {
            let k = keys[i];
            proof {
                lemma_to_set_take_step(keys@, i as int);
            }
            if !contains_key(&self.pending, k) {
                let ghost pre = self.pending@;
                self.pending.push(k);
                proof {
                    lemma_to_set_push(pre, k);
                    assert(self.pending@.to_set() =~= old_set.union(
                        keys@.take(i + 1).to_set(),
                    ));
                    assert forall|a: int, b: int|
                        0 <= a < b < self.pending@.len() implies self.pending@[a]
                        != self.pending@[b] by {
                        if b == pre.len() as int {
                            assert(!pre.contains(self.pending@[b]));
                        }
                    }
                }
            } else {
                proof {
                    assert(self.pending@.to_set().contains(k));
                    assert(old_set.union(keys@.take(i + 1).to_set()) =~= old_set.union(
                        keys@.take(i as int).to_set(),
                    ));
                }
            }
            i = i + 1;
        }
        proof {
            assert(keys@.take(keys@.len() as int) =~= keys@);
        }
        let d = now + self.window_ms;
        self.deadline = Some(d);
        Some(d)
    }

    /// Fires the pending cycle: hands back the accumulated keys, each
    /// exactly once, and clears the engine back to idle.
    pub fn finish_debounce(&mut self) -> (fired: Vec<u64>)
        requires
            old(self).wf(),
        ensures
            final(self).wf(),
            fired@.to_set() == old(self)@.pending,
            forall|i: int, j: int| 0 <= i < j < fired@.len() ==> fired@[i] != fired@[j],
            final(self)@ == (HandlerModel {
                window: old(self)@.window,
                pending: Set::<u64>::empty(),
                deadline: None::<u64>,
            }),
    {
        self.deadline = None;
        let mut fired: Vec<u64> = Vec::new();
        core::mem::swap(&mut fired, &mut self.pending);
        proof {
            assert(self.pending@.to_set() =~= Set::<u64>::empty());
        }
        fired
    }

    /// The armed deadline, if any.
    pub fn deadline(&self) -> (d: Option<u64>)
        ensures
            d == self@.deadline,
    {
        self.deadline
    }

    /// The engine's fixed quiet window in milliseconds.
    pub fn window_ms(&self) -> (w: u64)
        ensures
            w == self@.window,
    {
        self.window_ms
    }
}

/// Whether a key is among those accumulated.
fn contains_key(v: &Vec<u64>, x: u64) -> (r: bool)
    ensures
        r == v@.contains(x),
{
    let mut i: usize = 0;
    while i < v.len()
        invariant
            i <= v.len(),
            forall|j: int| 0 <= j < i ==> v@[j] != x,
        decreases v.len() - i,
    {
        if v[i] == x {
            return true;
        }
        i = i + 1;
    }
    false
}

/// Extending a prefix by one element inserts that element into its key set.
proof fn lemma_to_set_take_step(s: Seq<u64>, i: int)
    requires
        0 <= i < s.len(),
    ensures
        s.take(i + 1).to_set() == s.take(i).to_set().insert(s[i]),
{
    let a = s.take(i + 1).to_set();
    let b = s.take(i).to_set().insert(s[i]);
    assert forall|x: u64| a.contains(x) implies b.contains(x) by {
        let j = choose|j: int| 0 <= j < i + 1 && (#[trigger] s.take(i + 1)[j]) == x;
        if j < i {
            assert(s.take(i)[j] == x);
            assert(s.take(i).contains(x));
        }
    }
    assert forall|x: u64| b.contains(x) implies a.contains(x) by {
        if x == s[i] {
            assert(s.take(i + 1)[i] == x);
            assert(s.take(i + 1).contains(x));
        } else {
            let j = choose|j: int| 0 <= j < i && (#[trigger] s.take(i)[j]) == x;
            assert(s.take(i + 1)[j] == x);
            assert(s.take(i + 1).contains(x));
        }
    }
    assert(a =~= b);
}

/// Pushing an element inserts it into a sequence's key set.
proof fn lemma_to_set_push(s: Seq<u64>, x: u64)
    ensures
        s.push(x).to_set() == s.to_set().insert(x),
{
    let a = s.push(x).to_set();
    let b = s.to_set().insert(x);
    assert forall|y: u64| a.contains(y) implies b.contains(y) by {
        let j = choose|j: int| 0 <= j < s.len() + 1 && (#[trigger] s.push(x)[j]) == y;
        if j < s.len() {
            assert(s[j] == y);
            assert(s.contains(y));
        }
    }
    assert forall|y: u64| b.contains(y) implies a.contains(y) by {
        if y == x {
            assert(s.push(x)[s.len() as int] == y);
            assert(s.push(x).contains(y));
        } else {
            let j = choose|j: int| 0 <= j < s.len() && (#[trigger] s[j]) == y;
            assert(s.push(x)[j] == y);
            assert(s.push(x).contains(y));
        }
    }
    assert(a =~= b);
}

} // verus!
