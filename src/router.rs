use vstd::prelude::*;

use crate::sink::{delivery_of, CustomLogger, Delivery, DeliveryView, LogEvent, SinkView};

verus! {

/// A router as a value: its sinks in registration order and its fallback.
pub struct RouterView {
    pub sinks: Seq<SinkView>,
    pub fallback: Option<SinkView>,
}

/// Indices, in increasing order, of the sinks whose key is `key`.
pub open spec fn matching(sinks: Seq<SinkView>, key: Seq<char>) -> Seq<int>
    decreases sinks.len(),
{
    if sinks.len() == 0 {
        Seq::empty()
    } else {
        let m = matching(sinks.drop_last(), key);
        if sinks.last().target == key {
            m.push(sinks.len() - 1)
        } else {
            m
        }
    }
}

/// The sinks that write an event with target `key`: every sink whose key
/// matches, in registration order; where none does, the fallback if there is
/// one; else none.
pub open spec fn recipients(r: RouterView, key: Seq<char>) -> Seq<SinkView> {
    let m = matching(r.sinks, key);
    if m.len() > 0 {
        m.map_values(|i: int| r.sinks[i])
    } else {
        match r.fallback {
            Some(f) => seq![f],
            None => Seq::empty(),
        }
    }
}

/// What dispatching `event` with the time stamp `timestamp` writes, one
/// delivery per recipient, in order.
pub open spec fn deliveries(r: RouterView, event: &LogEvent, timestamp: Seq<char>) -> Seq<
    DeliveryView,
> {
    recipients(r, event.target@).map_values(|s: SinkView| delivery_of(s, event, timestamp))
}

/// Relies on `chrono::Local::now` and `DateTime::to_rfc3339_opts` with
/// millisecond precision: the local time now. Nothing is known of its text.
#[verifier::external_body]
fn now_timestamp() -> (r: String) {
    chrono::Local::now().to_rfc3339_opts(chrono::SecondsFormat::Millis, true)
}

/// Routes each log event to the sinks registered for its target, or to the
/// fallback sink when none is.
pub struct Logger {
    loggers: Vec<CustomLogger>,
    fallback: Option<CustomLogger>,
}

impl View for Logger {
    type V = RouterView;

    closed spec fn view(&self) -> RouterView {
        RouterView {
            sinks: self.loggers@.map_values(|s: CustomLogger| s@),
            fallback: match self.fallback {
                Some(f) => Some(f@),
                None => None,
            },
        }
    }
}

impl Logger {
    /// A router with no sinks and no fallback.
    pub fn new() -> (r: Logger)
        ensures
            r@.sinks == Seq::<SinkView>::empty(),
            r@.fallback is None,
    {
        let r = Logger { loggers: Vec::new(), fallback: None };
        assert(r@.sinks =~= Seq::<SinkView>::empty());
        r
    }

    /// Registers `logger` after the sinks already there.
    pub fn add_logger(&mut self, logger: CustomLogger)
        ensures
            final(self)@.sinks == old(self)@.sinks.push(logger@),
            final(self)@.fallback == old(self)@.fallback,
    {
        let ghost s = logger@;
        self.loggers.push(logger);
        assert(self@.sinks =~= old(self)@.sinks.push(s));
    }

    /// Makes `fallback` the fallback sink, in place of any earlier one.
    pub fn set_fallback(&mut self, fallback: CustomLogger)
        ensures
            final(self)@.sinks == old(self)@.sinks,
            final(self)@.fallback == Some(fallback@),
    {
        self.fallback = Some(fallback);
        assert(self@.sinks =~= old(self)@.sinks);
    }

    /// The router filters nothing itself: every event is offered to it.
    pub fn enabled(&self, event: &LogEvent) -> (r: bool)
        ensures
            r,
    {
        true
    }

    /// Indices of the sinks that accept `event`, in registration order.
    pub fn route(&self, event: &LogEvent) -> (r: Vec<usize>)
        ensures
            r@.map_values(|i: usize| i as int) == matching(self@.sinks, event.target@),
    {
        let mut r: Vec<usize> = Vec::new();
        let mut i: usize = 0;
        while i < self.loggers.len()
            invariant
                0 <= i <= self.loggers.len(),
                r@.map_values(|k: usize| k as int) == matching(
                    self@.sinks.take(i as int),
                    event.target@,
                ),
            decreases self.loggers.len() - i,
        {
            proof {
                assert(self@.sinks.take(i + 1).drop_last() =~= self@.sinks.take(i as int));
            }
            let ghost old_r = r@;
            if self.loggers[i].enabled(event) {
                r.push(i);
                assert(r@.map_values(|k: usize| k as int) =~= old_r.map_values(
                    |k: usize| k as int,
                ).push(i as int));
            }
            i = i + 1;
        }
        assert(self@.sinks.take(i as int) =~= self@.sinks);
        r
    }

    /// What dispatching `event` writes when the time is `timestamp`: one
    /// delivery for each sink that accepts it, in registration order, or,
    /// where none does, one for the fallback if there is one.
    pub fn log_at(&self, event: &LogEvent, timestamp: &str) -> (r: Vec<Delivery>)
        ensures
            r@.map_values(|d: Delivery| d@) == deliveries(self@, event, timestamp@),
    {
        let idx = self.route(event);
        let ghost m = matching(self@.sinks, event.target@);
        let ghost want = deliveries(self@, event, timestamp@);
        proof {
            lemma_matching_in_range(self@.sinks, event.target@);
        }
        let mut out: Vec<Delivery> = Vec::new();
        let mut j: usize = 0;
        while j < idx.len()
            invariant
                0 <= j <= idx.len(),
                idx@.map_values(|i: usize| i as int) == m,
                m == matching(self@.sinks, event.target@),
                forall|k: int| 0 <= k < m.len() ==> 0 <= #[trigger] m[k] < self@.sinks.len(),
                m.len() > 0 ==> want == m.map_values(
                    |i: int| delivery_of(self@.sinks[i], event, timestamp@),
                ),
                want == deliveries(self@, event, timestamp@),
                out@.len() == j,
                forall|k: int| 0 <= k < j ==> (#[trigger] out@[k])@ == want[k],
            decreases idx.len() - j,
        {
            let i = idx[j];
            assert(m[j as int] == i as int);
            let d = self.loggers[i].write(event, timestamp);
            out.push(d);
            j = j + 1;
        }
        if idx.len() == 0 {
            match &self.fallback {
                Some(f) => {
                    let d = f.write(event, timestamp);
                    out.push(d);
                },
                None => {},
            }
        }
        assert(out@.map_values(|d: Delivery| d@) =~= want);
        out
    }

    /// Dispatches `event` now: what `log_at` writes for the current local
    /// time, in milliseconds.
    pub fn log(&self, event: &LogEvent) -> (r: Vec<Delivery>)
        ensures
            exists|t: Seq<char>| r@.map_values(|d: Delivery| d@) == deliveries(self@, event, t),
    {
        let now = now_timestamp();
        self.log_at(event, now.as_str())
    }

    /// Every write is complete when it returns, so there is nothing to flush.
    pub fn flush(&self) {
    }
}

/// Every index that `matching` yields names a sink of the sequence.
proof fn lemma_matching_in_range(sinks: Seq<SinkView>, key: Seq<char>)
    ensures
        forall|k: int|
            0 <= k < matching(sinks, key).len() ==> 0 <= #[trigger] matching(sinks, key)[k]
                < sinks.len(),
    decreases sinks.len(),
{
    if sinks.len() > 0 {
        let m = matching(sinks.drop_last(), key);
        lemma_matching_in_range(sinks.drop_last(), key);
        assert forall|k: int| 0 <= k < matching(sinks, key).len() implies 0
            <= #[trigger] matching(sinks, key)[k] < sinks.len() by {
            if k < m.len() {
                assert(m[k] < sinks.drop_last().len());
            }
        }
    }
}

/// Routing is exact: a sink is among those matched for `key` exactly when its
/// own key is `key`, and each matched sink appears once, in registration
/// order. Where any sink matches, the recipients are exactly those sinks,
/// each with key `key`.
pub proof fn lemma_routing(r: RouterView, key: Seq<char>)
    ensures
        forall|i: int|
            0 <= i < r.sinks.len() ==> (matching(r.sinks, key).contains(i) <==> r.sinks[i].target
                == key),
        forall|a: int, b: int|
            0 <= a < b < matching(r.sinks, key).len() ==> matching(r.sinks, key)[a] < matching(
                r.sinks,
                key,
            )[b],
        matching(r.sinks, key).len() > 0 ==> recipients(r, key).len() == matching(
            r.sinks,
            key,
        ).len(),
        matching(r.sinks, key).len() > 0 ==> forall|k: int|
            0 <= k < recipients(r, key).len() ==> (#[trigger] recipients(r, key)[k]).target
                == key,
{
    lemma_matching_exact(r.sinks, key);
}

proof fn lemma_matching_exact(sinks: Seq<SinkView>, key: Seq<char>)
    ensures
        forall|i: int|
            0 <= i < sinks.len() ==> (matching(sinks, key).contains(i) <==> sinks[i].target
                == key),
        forall|k: int|
            0 <= k < matching(sinks, key).len() ==> 0 <= #[trigger] matching(sinks, key)[k]
                < sinks.len() && sinks[matching(sinks, key)[k]].target == key,
        forall|a: int, b: int|
            0 <= a < b < matching(sinks, key).len() ==> matching(sinks, key)[a] < matching(
                sinks,
                key,
            )[b],
    decreases sinks.len(),
{
    if sinks.len() > 0 {
        let p = sinks.drop_last();
        let m = matching(p, key);
        let n = sinks.len() - 1;
        lemma_matching_exact(p, key);
        let full = matching(sinks, key);
        assert forall|k: int| 0 <= k < full.len() implies 0 <= #[trigger] full[k] < sinks.len()
            && sinks[full[k]].target == key by {
            if k < m.len() {
                assert(m[k] < p.len());
                assert(sinks[m[k]] == p[m[k]]);
            }
        }
        assert forall|i: int| 0 <= i < sinks.len() implies (full.contains(i)
            <==> sinks[i].target == key) by {
            if i < n {
                assert(sinks[i] == p[i]);
                if m.contains(i) {
                    let k = choose|k: int| 0 <= k < m.len() && m[k] == i;
                    assert(full[k] == i);
                }
                if full.contains(i) {
                    let k = choose|k: int| 0 <= k < full.len() && full[k] == i;
                    assert(k < m.len());
                    assert(m[k] == i);
                }
            } else {
                if sinks[i].target == key {
                    assert(full[full.len() - 1] == i);
                }
                if full.contains(i) {
                    let k = choose|k: int| 0 <= k < full.len() && full[k] == i;
                    if k < m.len() {
                        assert(m[k] < p.len());
                    }
                }
            }
        }
        assert forall|a: int, b: int| 0 <= a < b < full.len() implies full[a] < full[b] by {
            if b < m.len() {
            } else {
                assert(m[a] < p.len());
            }
        }
    }
}

/// Fan-out: two distinct sinks registered with the same key both receive an
/// event with that key.
pub proof fn lemma_fan_out(r: RouterView, key: Seq<char>, i: int, j: int)
    requires
        0 <= i < r.sinks.len(),
        0 <= j < r.sinks.len(),
        i != j,
        r.sinks[i].target == key,
        r.sinks[j].target == key,
    ensures
        matching(r.sinks, key).contains(i),
        matching(r.sinks, key).contains(j),
        recipients(r, key).len() >= 2,
{
    lemma_routing(r, key);
    let m = matching(r.sinks, key);
    assert(m.contains(i));
    assert(m.contains(j));
    let a = choose|a: int| 0 <= a < m.len() && m[a] == i;
    let b = choose|b: int| 0 <= b < m.len() && m[b] == j;
    assert(a != b);
    assert(m.len() >= 2);
}

/// The fallback writes only on a miss: an event whose key no sink has goes
/// to the fallback alone, once, when one is set; an event that some sink
/// accepts never reaches the fallback.
pub proof fn lemma_fallback_only_on_miss(r: RouterView, key: Seq<char>)
    ensures
        (forall|i: int| 0 <= i < r.sinks.len() ==> r.sinks[i].target != key) ==> {
            &&& matching(r.sinks, key).len() == 0
            &&& (r.fallback matches Some(f) ==> recipients(r, key) == seq![f])
        },
        (exists|i: int| 0 <= i < r.sinks.len() && r.sinks[i].target == key) ==> {
            &&& matching(r.sinks, key).len() > 0
            &&& recipients(r, key) == matching(r.sinks, key).map_values(|i: int| r.sinks[i])
        },
{
    lemma_routing(r, key);
    let m = matching(r.sinks, key);
    if forall|i: int| 0 <= i < r.sinks.len() ==> r.sinks[i].target != key {
        lemma_matching_in_range(r.sinks, key);
        if m.len() > 0 {
            assert(m.contains(m[0]));
        }
    }
    if exists|i: int| 0 <= i < r.sinks.len() && r.sinks[i].target == key {
        let i = choose|i: int| 0 <= i < r.sinks.len() && r.sinks[i].target == key;
        assert(m.contains(i));
    }
}

/// With no fallback, an event that no sink accepts is dropped: nothing is
/// written at all.
pub proof fn lemma_dropped_without_fallback(r: RouterView, event: &LogEvent, timestamp: Seq<char>)
    requires
        r.fallback is None,
        forall|i: int| 0 <= i < r.sinks.len() ==> r.sinks[i].target != event.target@,
    ensures
        deliveries(r, event, timestamp).len() == 0,
{
    lemma_fallback_only_on_miss(r, event.target@);
}

} // verus!
