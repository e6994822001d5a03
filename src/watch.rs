//! What a watch task does with each store event, in order.
use vstd::prelude::*;
use vstd::slice::slice_to_vec;

verus! {

/// An event of a prefix watch.
pub enum WatchEvent {
    Put(String, Vec<u8>),
    Delete(String),
}

/// The kinds of step a watch task takes for an event.
#[derive(Debug, Clone, Copy, PartialEq, Eq, Structural)]
pub enum StepKind {
    /// Write the value into the cache under the key.
    CachePut,
    /// Hand the key and value to the registered adapters.
    Notify,
    /// Remove the key from the cache.
    CacheDelete,
}

/// A step of a watch task: its kind and the key it concerns.
pub struct WatchStep {
    pub kind: StepKind,
    pub key: String,
}

pub open spec fn step_view(s: WatchStep) -> (StepKind, Seq<char>) {
    (s.kind, s.key@)
}

pub open spec fn steps_view(ss: Seq<WatchStep>) -> Seq<(StepKind, Seq<char>)> {
    ss.map_values(|s: WatchStep| step_view(s))
}

pub open spec fn event_key(e: WatchEvent) -> Seq<char> {
    match e {
        WatchEvent::Put(k, _) => k@,
        WatchEvent::Delete(k) => k@,
    }
}

/// The steps of one event: a put is cached, then handed to the adapters; a
/// delete is removed from the cache.
pub open spec fn event_steps(e: WatchEvent) -> Seq<(StepKind, Seq<char>)> {
    match e {
        WatchEvent::Put(k, _) => seq![(StepKind::CachePut, k@), (StepKind::Notify, k@)],
        WatchEvent::Delete(k) => seq![(StepKind::CacheDelete, k@)],
    }
}

/// The steps of a run of events, event after event.
pub open spec fn run_steps(es: Seq<WatchEvent>) -> Seq<(StepKind, Seq<char>)>
    decreases es.len(),
{
    if es.len() == 0 {
        Seq::empty()
    } else {
        run_steps(es.drop_last()) + event_steps(es.last())
    }
}

/// The keys the adapters are handed, in order.
pub open spec fn notified(ss: Seq<(StepKind, Seq<char>)>) -> Seq<Seq<char>>
    decreases ss.len(),
{
    if ss.len() == 0 {
        Seq::empty()
    } else if ss.last().0 == StepKind::Notify {
        notified(ss.drop_last()).push(ss.last().1)
    } else {
        notified(ss.drop_last())
    }
}

/// The keys of the puts among the events, in order.
pub open spec fn put_keys(es: Seq<WatchEvent>) -> Seq<Seq<char>>
    decreases es.len(),
{
    if es.len() == 0 {
        Seq::empty()
    } else {
        match es.last() {
            WatchEvent::Put(k, _) => put_keys(es.drop_last()).push(k@),
            WatchEvent::Delete(_) => put_keys(es.drop_last()),
        }
    }
}

proof fn lemma_notified_concat(a: Seq<(StepKind, Seq<char>)>, b: Seq<(StepKind, Seq<char>)>)
    ensures
        notified(a + b) == notified(a) + notified(b),
    decreases b.len(),
{
    if b.len() == 0 {
        assert(a + b =~= a);
        assert(notified(a) + notified(b) =~= notified(a));
    } else {
        lemma_notified_concat(a, b.drop_last());
        assert((a + b).drop_last() =~= a + b.drop_last());
        assert((a + b).last() == b.last());
        if b.last().0 == StepKind::Notify {
            assert(notified(a) + notified(b.drop_last()).push(b.last().1) =~= (notified(a) + notified(
                b.drop_last(),
            )).push(b.last().1));
        }
    }
}

/// The adapters are handed the keys of the puts of a prefix in the order the
/// store gave them, and nothing for deletes.
pub proof fn lemma_notify_order(es: Seq<WatchEvent>)
    ensures
        notified(run_steps(es)) == put_keys(es),
    decreases es.len(),
{
    if es.len() > 0 {
        lemma_notify_order(es.drop_last());
        lemma_notified_concat(run_steps(es.drop_last()), event_steps(es.last()));
        let st = event_steps(es.last());
        match es.last() {
            WatchEvent::Put(k, _) => {
                let first = seq![(StepKind::CachePut, k@)];
                assert(st.drop_last() =~= first);
                assert(first.drop_last() =~= Seq::<(StepKind, Seq<char>)>::empty());
                assert(notified(first.drop_last()) == Seq::<Seq<char>>::empty());
                assert(first.last().0 == StepKind::CachePut);
                assert(notified(first) == notified(first.drop_last()));
                assert(st.last().0 == StepKind::Notify);
                assert(notified(st) == notified(st.drop_last()).push(st.last().1));
                assert(notified(st) =~= seq![k@]);
            },
            WatchEvent::Delete(k) => {
                assert(st.drop_last() =~= Seq::<(StepKind, Seq<char>)>::empty());
                assert(notified(st.drop_last()) == Seq::<Seq<char>>::empty());
                assert(st.last().0 == StepKind::CacheDelete);
                assert(notified(st) == notified(st.drop_last()));
            },
        }
        assert(notified(run_steps(es.drop_last())) + notified(st) =~= put_keys(es));
    }
}

/// Within the steps of an event, the cache is written before the adapters are told.
pub proof fn lemma_cache_before_notify(e: WatchEvent)
    ensures
        forall|i: int, j: int|
            0 <= i < event_steps(e).len() && 0 <= j < event_steps(e).len() && event_steps(e)[i].0
                == StepKind::CachePut && event_steps(e)[j].0 == StepKind::Notify ==> i < j,
{
}

/// The steps a watch task takes for one event.
pub fn plan_event(e: &WatchEvent) -> (r: Vec<WatchStep>)
    ensures
        steps_view(r@) == event_steps(*e),
{
    let mut out: Vec<WatchStep> = Vec::new();
    match e {
        WatchEvent::Put(k, _) => {
            out.push(WatchStep { kind: StepKind::CachePut, key: k.clone() });
            out.push(WatchStep { kind: StepKind::Notify, key: k.clone() });
        },
        WatchEvent::Delete(k) => {
            out.push(WatchStep { kind: StepKind::CacheDelete, key: k.clone() });
        },
    }
    proof {
        assert(steps_view(out@) =~= event_steps(*e));
    }
    out
}

pub open spec fn watch_prefix_of(prefix: Seq<char>, family: Seq<char>) -> Seq<char> {
    prefix + family
}

/// The prefixes a node watches: zones, scopes, policies and threats under the
/// configured prefix.
pub fn watch_prefixes(prefix: &str) -> (r: Vec<String>)
    ensures
        r@.len() == 4,
        r@[0]@ == prefix@ + "/dns/zones"@,
        r@[1]@ == prefix@ + "/dhcp/scopes"@,
        r@[2]@ == prefix@ + "/policies"@,
        r@[3]@ == prefix@ + "/threats"@,
{
    let mut out: Vec<String> = Vec::new();
    out.push(crate::text::string_of(&joined2(prefix, "/dns/zones")));
    out.push(crate::text::string_of(&joined2(prefix, "/dhcp/scopes")));
    out.push(crate::text::string_of(&joined2(prefix, "/policies")));
    out.push(crate::text::string_of(&joined2(prefix, "/threats")));
    out
}

fn joined2(a: &str, b: &str) -> (r: Vec<char>)
    ensures
        r@ == a@ + b@,
{
    let mut v = crate::text::chars_of(a);
    crate::text::push_str(&mut v, b);
    v
}

} // verus!
