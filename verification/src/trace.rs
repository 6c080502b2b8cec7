//! The record that a browser authority keeps of its calls: actions posted,
//! observations returned (sorted into console, network, screenshot and DOM
//! snapshot lists), and errors; and the reports built from it.

use vstd::prelude::*;

use crate::text::{str_eq};
use crate::value::{
    clone_value, entries_view, lemma_values_view, lemma_values_view_ext, put, value_view,
    values_view, Value, ValueV,
};

verus! {

/// One recorded event.
#[derive(Debug)]
pub struct TraceEvent {
    pub timestamp_ms: i64,
    pub kind: String,
    pub method: String,
    pub data: Value,
}

/// Mathematical value of a [`TraceEvent`].
pub struct EventV {
    pub timestamp_ms: int,
    pub kind: Seq<char>,
    pub method: Seq<char>,
    pub data: ValueV,
}

pub open spec fn event_view(e: TraceEvent) -> EventV {
    EventV { timestamp_ms: e.timestamp_ms as int, kind: e.kind@, method: e.method@, data: e.data@ }
}

pub open spec fn events_view(s: Seq<TraceEvent>) -> Seq<EventV> {
    s.map(|i: int, e: TraceEvent| event_view(e))
}

/// An event's report: its time, kind, method and data.
pub open spec fn event_value(e: EventV) -> ValueV {
    ValueV::Dict(seq![
        ("timestamp_ms"@, ValueV::Int(e.timestamp_ms)),
        ("kind"@, ValueV::Str(e.kind)),
        ("method"@, ValueV::Str(e.method)),
        ("data"@, e.data),
    ])
}

pub open spec fn events_value(s: Seq<EventV>) -> ValueV {
    ValueV::List(s.map(|i: int, e: EventV| event_value(e)))
}

impl TraceEvent {
    /// An event of `kind` for `method`, stamped `timestamp_ms`.
    pub fn new(kind: &str, method: &str, data: Value, timestamp_ms: i64) -> (r: TraceEvent)
        ensures
            event_view(r) == (EventV { timestamp_ms: timestamp_ms as int, kind: kind@, method: method@, data: data@ }),
    {
        TraceEvent { timestamp_ms, kind: String::from_str(kind), method: String::from_str(method), data }
    }

    /// The event as a map value.
    pub fn value(&self) -> (r: Value)
        ensures
            r@ == event_value(event_view(*self)),
    {
        let mut es: Vec<(String, Value)> = Vec::new();
        assert(es@ =~= Seq::<(String, Value)>::empty());
        put(&mut es, "timestamp_ms", Value::Int(self.timestamp_ms));
        put(&mut es, "kind", Value::Str(self.kind.clone()));
        put(&mut es, "method", Value::Str(self.method.clone()));
        put(&mut es, "data", clone_value(&self.data));
        assert(entries_view(es@) =~= event_value(event_view(*self))->Dict_0);
        Value::Dict(es)
    }
}

/// Reports of a list of events.
pub fn trace_events(events: &Vec<TraceEvent>) -> (r: Value)
    ensures
        r@ == events_value(events_view(events@)),
{
    let mut out: Vec<Value> = Vec::new();
    for i in 0..events.len()
        invariant
            out.len() == i,
            i <= events.len(),
            forall|j: int| 0 <= j < i ==> value_view(#[trigger] out@[j]) == event_value(event_view(events@[j])),
    {
        out.push(events[i].value());
    }
    proof {
        lemma_values_view_ext(out@, events_view(events@).map(|i: int, e: EventV| event_value(e)));
    }
    Value::List(out)
}

/// Copies of a list of values.
pub fn clone_values(vs: &Vec<Value>) -> (r: Value)
    ensures
        r@ == ValueV::List(values_view(vs@)),
{
    let mut out: Vec<Value> = Vec::new();
    for i in 0..vs.len()
        invariant
            out.len() == i,
            i <= vs.len(),
            forall|j: int| 0 <= j < i ==> value_view(#[trigger] out@[j]) == value_view(vs@[j]),
    {
        out.push(clone_value(&vs[i]));
    }
    proof {
        lemma_values_view(vs@);
        lemma_values_view_ext(out@, values_view(vs@));
    }
    Value::List(out)
}

/// Mathematical value of a [`BrowserTrace`].
pub struct TraceV {
    pub actions: Seq<EventV>,
    pub observations: Seq<EventV>,
    pub console_events: Seq<ValueV>,
    pub network_events: Seq<ValueV>,
    pub screenshots: Seq<EventV>,
    pub dom_snapshots: Seq<ValueV>,
    pub storage_changes: Seq<EventV>,
    pub errors: Seq<EventV>,
}

/// The record of an authority's calls.
#[derive(Debug)]
pub struct BrowserTrace {
    actions: Vec<TraceEvent>,
    observations: Vec<TraceEvent>,
    console_events: Vec<Value>,
    network_events: Vec<Value>,
    screenshots: Vec<TraceEvent>,
    dom_snapshots: Vec<Value>,
    storage_changes: Vec<TraceEvent>,
    errors: Vec<TraceEvent>,
}

pub open spec fn is_console_kind(m: Seq<char>) -> bool {
    m == "console_logs"@ || m == "console_errors"@ || m == "unhandled_rejections"@ || m == "runtime_exceptions"@
}

pub open spec fn is_network_kind(m: Seq<char>) -> bool {
    m == "network_log"@ || m == "failed_requests"@ || m == "request"@ || m == "response"@
}

pub open spec fn is_screenshot_kind(m: Seq<char>) -> bool {
    m == "screenshot"@ || m == "screenshot_element"@
}

pub open spec fn is_snapshot_kind(m: Seq<char>) -> bool {
    m == "dom_snapshot"@ || m == "page_snapshot"@
}

/// The trace after an observation `v` of `m` at time `now`: it is always
/// recorded, and also filed under the list that its method belongs to.
pub open spec fn observe_spec(t: TraceV, m: Seq<char>, v: ValueV, now: int) -> TraceV {
    let t1 = TraceV {
        observations: t.observations.push(EventV { timestamp_ms: now, kind: "observation"@, method: m, data: v }),
        ..t
    };
    if is_console_kind(m) {
        TraceV { console_events: t1.console_events.push(v), ..t1 }
    } else if is_network_kind(m) {
        TraceV { network_events: t1.network_events.push(v), ..t1 }
    } else if is_screenshot_kind(m) {
        TraceV { screenshots: t1.screenshots.push(EventV { timestamp_ms: now, kind: "screenshot"@, method: m, data: v }), ..t1 }
    } else if is_snapshot_kind(m) {
        TraceV { dom_snapshots: t1.dom_snapshots.push(v), ..t1 }
    } else {
        t1
    }
}

pub open spec fn empty_trace() -> TraceV {
    TraceV {
        actions: Seq::empty(),
        observations: Seq::empty(),
        console_events: Seq::empty(),
        network_events: Seq::empty(),
        screenshots: Seq::empty(),
        dom_snapshots: Seq::empty(),
        storage_changes: Seq::empty(),
        errors: Seq::empty(),
    }
}

impl BrowserTrace {
    pub closed spec fn view_v(&self) -> TraceV {
        TraceV {
            actions: events_view(self.actions@),
            observations: events_view(self.observations@),
            console_events: values_view(self.console_events@),
            network_events: values_view(self.network_events@),
            screenshots: events_view(self.screenshots@),
            dom_snapshots: values_view(self.dom_snapshots@),
            storage_changes: events_view(self.storage_changes@),
            errors: events_view(self.errors@),
        }
    }

    /// An empty record.
    pub fn new() -> (r: BrowserTrace)
        ensures
            r.view_v() == empty_trace(),
    {
        let r = BrowserTrace {
            actions: Vec::new(),
            observations: Vec::new(),
            console_events: Vec::new(),
            network_events: Vec::new(),
            screenshots: Vec::new(),
            dom_snapshots: Vec::new(),
            storage_changes: Vec::new(),
            errors: Vec::new(),
        };
        assert(events_view(r.actions@) =~= Seq::empty());
        assert(events_view(r.observations@) =~= Seq::empty());
        assert(events_view(r.screenshots@) =~= Seq::empty());
        assert(events_view(r.storage_changes@) =~= Seq::empty());
        assert(events_view(r.errors@) =~= Seq::empty());
        assert(values_view(r.console_events@) =~= Seq::empty());
        r
    }

    /// Records an action posted for `method`.
    pub fn record_action(&mut self, method: &str, data: Value, now: i64)
        ensures
            final(self).view_v() == (TraceV {
                actions: old(self).view_v().actions.push(EventV { timestamp_ms: now as int, kind: "action"@, method: method@, data: data@ }),
                ..old(self).view_v()
            }),
    {
        let e = TraceEvent::new("action", method, data, now);
        self.actions.push(e);
        assert(events_view(self.actions@) =~= events_view(old(self).actions@).push(event_view(e)));
    }

    /// Records an error of `method`.
    pub fn record_error(&mut self, method: &str, message: String, now: i64)
        ensures
            final(self).view_v() == (TraceV {
                errors: old(self).view_v().errors.push(EventV { timestamp_ms: now as int, kind: "error"@, method: method@, data: ValueV::Str(message@) }),
                ..old(self).view_v()
            }),
    {
        let e = TraceEvent::new("error", method, Value::Str(message), now);
        self.errors.push(e);
        assert(events_view(self.errors@) =~= events_view(old(self).errors@).push(event_view(e)));
    }

    /// Records what `method` returned.
    pub fn observe(&mut self, method: &str, value: &Value, now: i64)
        ensures
            final(self).view_v() == observe_spec(old(self).view_v(), method@, value@, now as int),
    {
        let e = TraceEvent::new("observation", method, clone_value(value), now);
        self.observations.push(e);
        assert(events_view(self.observations@) =~= events_view(old(self).observations@).push(event_view(e)));
        let m = method;
        if str_eq(m, "console_logs") || str_eq(m, "console_errors") || str_eq(m, "unhandled_rejections")
            || str_eq(m, "runtime_exceptions") {
            let ghost before = self.console_events@;
            self.console_events.push(clone_value(value));
            assert(self.console_events@.drop_last() =~= before);
        } else if str_eq(m, "network_log") || str_eq(m, "failed_requests") || str_eq(m, "request")
            || str_eq(m, "response") {
            let ghost before = self.network_events@;
            self.network_events.push(clone_value(value));
            assert(self.network_events@.drop_last() =~= before);
        } else if str_eq(m, "screenshot") || str_eq(m, "screenshot_element") {
            let s = TraceEvent::new("screenshot", method, clone_value(value), now);
            let ghost before = self.screenshots@;
            self.screenshots.push(s);
            assert(events_view(self.screenshots@) =~= events_view(before).push(event_view(s)));
        } else if str_eq(m, "dom_snapshot") || str_eq(m, "page_snapshot") {
            let ghost before = self.dom_snapshots@;
            self.dom_snapshots.push(clone_value(value));
            assert(self.dom_snapshots@.drop_last() =~= before);
        }
    }
}


/// A count as an integer value (saturating at `i64::MAX`).
pub open spec fn count_value(n: nat) -> ValueV {
    ValueV::Int(if n <= i64::MAX as nat { n as int } else { i64::MAX as int })
}

fn count(n: usize) -> (r: Value)
    ensures
        r@ == count_value(n as nat),
{
    if n as u64 > i64::MAX as u64 {
        Value::Int(i64::MAX)
    } else {
        Value::Int(n as i64)
    }
}

/// The full record, stamped with the export time.
pub open spec fn trace_value_spec(t: TraceV, now: int) -> ValueV {
    ValueV::Dict(seq![
        ("actions"@, events_value(t.actions)),
        ("observations"@, events_value(t.observations)),
        ("console_events"@, ValueV::List(t.console_events)),
        ("network_events"@, ValueV::List(t.network_events)),
        ("screenshots"@, events_value(t.screenshots)),
        ("dom_snapshots"@, ValueV::List(t.dom_snapshots)),
        ("storage_changes"@, events_value(t.storage_changes)),
        ("errors"@, events_value(t.errors)),
        ("timestamps"@, ValueV::Dict(seq![("exported_at_ms"@, ValueV::Int(now))])),
    ])
}

/// The network events in HAR 1.2 form.
pub open spec fn har_value_spec(t: TraceV) -> ValueV {
    ValueV::Dict(seq![
        ("log"@, ValueV::Dict(seq![
            ("version"@, ValueV::Str("1.2"@)),
            ("creator"@, ValueV::Dict(seq![
                ("name"@, ValueV::Str("TetherScript BrowserAuthority"@)),
                ("version"@, ValueV::Str("0.1"@)),
            ])),
            ("entries"@, ValueV::List(t.network_events)),
        ])),
    ])
}

/// Counts of the recorded events.
pub open spec fn agent_summary_spec(t: TraceV) -> ValueV {
    ValueV::Dict(seq![
        ("action_count"@, count_value(t.actions.len())),
        ("observation_count"@, count_value(t.observations.len())),
        ("console_event_count"@, count_value(t.console_events.len())),
        ("network_event_count"@, count_value(t.network_events.len())),
        ("error_count"@, count_value(t.errors.len())),
    ])
}

pub open spec fn repro_body(actions: Seq<EventV>) -> Seq<char>
    decreases actions.len(),
{
    if actions.len() == 0 {
        Seq::empty()
    } else {
        repro_body(actions.drop_last()) + "\n    // "@ + actions.last().method
    }
}

/// A script that replays the recorded actions, one comment line each.
pub open spec fn minimal_repro_spec(t: TraceV) -> ValueV {
    ValueV::Str("fn repro(browser) {"@ + repro_body(t.actions) + "\n    return browser.trace()?\n}"@)
}

impl BrowserTrace {
    pub fn trace_value(&self, now: i64) -> (r: Value)
        ensures
            r@ == trace_value_spec(self.view_v(), now as int),
    {
        let mut ts: Vec<(String, Value)> = Vec::new();
        assert(ts@ =~= Seq::<(String, Value)>::empty());
        put(&mut ts, "exported_at_ms", Value::Int(now));
        assert(entries_view(ts@) =~= seq![("exported_at_ms"@, ValueV::Int(now as int))]);
        let mut es: Vec<(String, Value)> = Vec::new();
        assert(es@ =~= Seq::<(String, Value)>::empty());
        put(&mut es, "actions", trace_events(&self.actions));
        put(&mut es, "observations", trace_events(&self.observations));
        put(&mut es, "console_events", clone_values(&self.console_events));
        put(&mut es, "network_events", clone_values(&self.network_events));
        put(&mut es, "screenshots", trace_events(&self.screenshots));
        put(&mut es, "dom_snapshots", clone_values(&self.dom_snapshots));
        put(&mut es, "storage_changes", trace_events(&self.storage_changes));
        put(&mut es, "errors", trace_events(&self.errors));
        put(&mut es, "timestamps", Value::Dict(ts));
        assert(entries_view(es@) =~= trace_value_spec(self.view_v(), now as int)->Dict_0);
        Value::Dict(es)
    }

    pub fn har_value(&self) -> (r: Value)
        ensures
            r@ == har_value_spec(self.view_v()),
    {
        let mut creator: Vec<(String, Value)> = Vec::new();
        assert(creator@ =~= Seq::<(String, Value)>::empty());
        put(&mut creator, "name", Value::Str(String::from_str("TetherScript BrowserAuthority")));
        put(&mut creator, "version", Value::Str(String::from_str("0.1")));
        assert(entries_view(creator@) =~= seq![
            ("name"@, ValueV::Str("TetherScript BrowserAuthority"@)),
            ("version"@, ValueV::Str("0.1"@)),
        ]);
        let ghost cv = entries_view(creator@);
        let mut log: Vec<(String, Value)> = Vec::new();
        assert(log@ =~= Seq::<(String, Value)>::empty());
        put(&mut log, "version", Value::Str(String::from_str("1.2")));
        put(&mut log, "creator", Value::Dict(creator));
        put(&mut log, "entries", clone_values(&self.network_events));
        assert(entries_view(log@) =~= seq![
            ("version"@, ValueV::Str("1.2"@)),
            ("creator"@, ValueV::Dict(cv)),
            ("entries"@, ValueV::List(self.view_v().network_events)),
        ]);
        let mut es: Vec<(String, Value)> = Vec::new();
        assert(es@ =~= Seq::<(String, Value)>::empty());
        put(&mut es, "log", Value::Dict(log));
        assert(entries_view(es@) =~= har_value_spec(self.view_v())->Dict_0);
        Value::Dict(es)
    }

    pub fn agent_summary(&self) -> (r: Value)
        ensures
            r@ == agent_summary_spec(self.view_v()),
    {
        let mut es: Vec<(String, Value)> = Vec::new();
        assert(es@ =~= Seq::<(String, Value)>::empty());
        put(&mut es, "action_count", count(self.actions.len()));
        put(&mut es, "observation_count", count(self.observations.len()));
        put(&mut es, "console_event_count", count(self.console_events.len()));
        put(&mut es, "network_event_count", count(self.network_events.len()));
        put(&mut es, "error_count", count(self.errors.len()));
        proof {
            lemma_values_view(self.console_events@);
            lemma_values_view(self.network_events@);
        }
        assert(entries_view(es@) =~= agent_summary_spec(self.view_v())->Dict_0);
        Value::Dict(es)
    }

    pub fn minimal_repro(&self) -> (r: Value)
        ensures
            r@ == minimal_repro_spec(self.view_v()),
    {
        let ghost acts = events_view(self.actions@);
        let mut text = String::from_str("fn repro(browser) {");
        for i in 0..self.actions.len()
            invariant
                acts == events_view(self.actions@),
                text@ == "fn repro(browser) {"@ + repro_body(acts.take(i as int)),
        {
            text.append("\n    // ");
            text.append(self.actions[i].method.as_str());
            assert(acts.take(i + 1).drop_last() =~= acts.take(i as int));
            assert(text@ =~= "fn repro(browser) {"@ + repro_body(acts.take(i + 1)));
        }
        text.append("\n    return browser.trace()?\n}");
        assert(acts.take(self.actions@.len() as int) =~= acts);
        Value::Str(text)
    }
}

} // verus!
