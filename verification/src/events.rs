//! Event listeners and `on<type>` handlers of a page's nodes, and the order
//! in which a dispatched event reaches them. Nodes are named by their path
//! from the document root; listeners and handlers by ids that the script
//! host hands out, equal ids standing for the same function.

use vstd::prelude::*;

use crate::dom_tree::{bubble_path, bubble_spec};
use crate::text::concat;

verus! {

/// Mathematical value of a listener or handler record.
pub type RecV = (Seq<usize>, Seq<char>, u64);

/// The listeners and handlers of one document.
#[derive(Debug)]
pub struct EventRegistry {
    listeners: Vec<(Vec<usize>, String, u64)>,
    handlers: Vec<(Vec<usize>, String, u64)>,
}

pub open spec fn recs_view(s: Seq<(Vec<usize>, String, u64)>) -> Seq<RecV> {
    s.map(|i: int, r: (Vec<usize>, String, u64)| (r.0@, r.1@, r.2))
}

/// Whether a record is for `ty` on `path`.
pub open spec fn on_node(path: Seq<usize>, ty: Seq<char>) -> spec_fn(RecV) -> bool {
    |r: RecV| r.0 == path && r.1 == ty
}

/// Whether a record is other than `id`'s for `ty` on `path`.
pub open spec fn not_this(path: Seq<usize>, ty: Seq<char>, id: u64) -> spec_fn(RecV) -> bool {
    |r: RecV| !(r.0 == path && r.1 == ty && r.2 == id)
}

pub open spec fn rec_id() -> spec_fn(int, RecV) -> u64 {
    |i: int, r: RecV| r.2
}

/// Ids of the listeners for `ty` on the node at `path`, in the order added.
pub open spec fn listeners_spec(recs: Seq<RecV>, path: Seq<usize>, ty: Seq<char>) -> Seq<u64> {
    recs.filter(on_node(path, ty)).map(rec_id())
}

/// The records other than those of `id` for `ty` on `path`.
pub open spec fn without_listener(recs: Seq<RecV>, path: Seq<usize>, ty: Seq<char>, id: u64) -> Seq<RecV> {
    recs.filter(not_this(path, ty, id))
}

/// Position of the handler named `name` on `path`.
pub open spec fn handler_pos(hs: Seq<RecV>, path: Seq<usize>, name: Seq<char>, i: int) -> bool {
    0 <= i < hs.len() && hs[i].0 == path && hs[i].1 == name
}

/// The handler named `name` on `path`.
pub open spec fn handler_spec(hs: Seq<RecV>, path: Seq<usize>, name: Seq<char>) -> Option<u64> {
    if exists|i: int| handler_pos(hs, path, name, i) {
        Some(hs[choose|i: int| handler_pos(hs, path, name, i)].2)
    } else {
        None
    }
}

/// Handlers are unique per node and name.
pub open spec fn handlers_unique(hs: Seq<RecV>) -> bool {
    forall|i: int, j: int| 0 <= i < j < hs.len() ==> !(hs[i].0 == hs[j].0 && hs[i].1 == hs[j].1)
}

/// Setting a handler replaces the one of that name, or adds it.
pub open spec fn set_handler_spec(hs: Seq<RecV>, path: Seq<usize>, name: Seq<char>, id: u64) -> Seq<RecV> {
    if exists|i: int| handler_pos(hs, path, name, i) {
        hs.update(choose|i: int| handler_pos(hs, path, name, i), (path, name, id))
    } else {
        hs.push((path, name, id))
    }
}

fn same_path(a: &Vec<usize>, b: &[usize]) -> (r: bool)
    ensures
        r == (a@ == b@),
{
    if a.len() != b.len() {
        return false;
    }
    for i in 0..a.len()
        invariant
            a@.len() == b@.len(),
            forall|j: int| 0 <= j < i ==> a@[j] == b@[j],
    {
        if a[i] != b[i] {
            return false;
        }
    }
    assert(a@ =~= b@);
    true
}

/// One stop of a dispatched event: the node, its listeners for the event's
/// type in order, then its `on<type>` handler.
#[derive(Debug)]
pub struct DispatchStop {
    pub path: Vec<usize>,
    pub listeners: Vec<u64>,
    pub handler: Option<u64>,
}

impl EventRegistry {
    pub closed spec fn listeners_v(&self) -> Seq<RecV> {
        recs_view(self.listeners@)
    }

    pub closed spec fn handlers_v(&self) -> Seq<RecV> {
        recs_view(self.handlers@)
    }

    pub open spec fn wf(&self) -> bool {
        handlers_unique(self.handlers_v())
    }

    pub fn new() -> (r: EventRegistry)
        ensures
            r.wf(),
            r.listeners_v() == Seq::<RecV>::empty(),
            r.handlers_v() == Seq::<RecV>::empty(),
    {
        let r = EventRegistry { listeners: Vec::new(), handlers: Vec::new() };
        assert(recs_view(r.listeners@) =~= Seq::<RecV>::empty());
        assert(recs_view(r.handlers@) =~= Seq::<RecV>::empty());
        r
    }

    /// `addEventListener(type, listener)` on the node at `path`.
    pub fn add_event_listener(&mut self, path: &[usize], event_type: &str, id: u64)
        ensures
            final(self).listeners_v() == old(self).listeners_v().push((path@, event_type@, id)),
            final(self).handlers_v() == old(self).handlers_v(),
    {
        let ghost before = self.listeners@;
        self.listeners.push((vstd::slice::slice_to_vec(path), String::from_str(event_type), id));
        assert(recs_view(self.listeners@) =~= recs_view(before).push((path@, event_type@, id)));
    }

    /// `removeEventListener(type, listener)`: drops every registration of
    /// that listener for that type on the node.
    pub fn remove_event_listener(&mut self, path: &[usize], event_type: &str, id: u64)
        ensures
            final(self).listeners_v() == without_listener(old(self).listeners_v(), path@, event_type@, id),
            final(self).handlers_v() == old(self).handlers_v(),
    {
        let ghost all = recs_view(self.listeners@);
        let ty = String::from_str(event_type);
        let mut kept: Vec<(Vec<usize>, String, u64)> = Vec::new();
        assert(recs_view(kept@) =~= without_listener(all.take(0), path@, event_type@, id));
        let mut i: usize = 0;
        while i < self.listeners.len()
            invariant
                i <= self.listeners@.len(),
                all == recs_view(self.listeners@),
                ty@ == event_type@,
                self.listeners@ == old(self).listeners@,
                self.handlers@ == old(self).handlers@,
                recs_view(kept@) == without_listener(all.take(i as int), path@, event_type@, id),
            decreases self.listeners.len() - i,
        {
            proof {
                all.take(i as int).lemma_filter_push(all[i as int], not_this(path@, event_type@, id));
                assert(all.take(i + 1) =~= all.take(i as int).push(all[i as int]));
            }
            let r = &self.listeners[i];
            assert(all[i as int] == (r.0@, r.1@, r.2));
            let matches = same_path(&r.0, path) && r.1 == ty && r.2 == id;
            if !matches {
                let ghost before = kept@;
                let copy = (r.0.clone(), r.1.clone(), r.2);
                assert(copy.0@ == r.0@);
                kept.push(copy);
                assert(recs_view(kept@) =~= recs_view(before).push(all[i as int]));
            }
            i = i + 1;
        }
        assert(all.take(all.len() as int) =~= all);
        self.listeners = kept;
    }

    /// Sets the `name` handler (such as `onclick`) of the node at `path`.
    pub fn set_handler(&mut self, path: &[usize], name: &str, id: u64)
        requires
            old(self).wf(),
        ensures
            final(self).wf(),
            final(self).handlers_v() == set_handler_spec(old(self).handlers_v(), path@, name@, id),
            final(self).listeners_v() == old(self).listeners_v(),
    {
        let ghost hs = recs_view(self.handlers@);
        let n = String::from_str(name);
        let mut i: usize = 0;
        while i < self.handlers.len()
            invariant
                i <= self.handlers@.len(),
                hs == recs_view(self.handlers@),
                n@ == name@,
                handlers_unique(hs),
                self.listeners@ == old(self).listeners@,
                self.handlers@ == old(self).handlers@,
                forall|j: int| 0 <= j < i ==> !handler_pos(hs, path@, name@, j),
            decreases self.handlers.len() - i,
        {
            if same_path(&self.handlers[i].0, path) && self.handlers[i].1 == n {
                assert(handler_pos(hs, path@, name@, i as int));
                proof {
                    let k = choose|k: int| handler_pos(hs, path@, name@, k);
                    if k != i {
                        if k < i {
                        } else {
                            assert(handlers_unique(hs));
                            assert(!(hs[i as int].0 == hs[k].0 && hs[i as int].1 == hs[k].1));
                        }
                    }
                }
                let ghost before = self.handlers@;
                self.handlers.set(i, (vstd::slice::slice_to_vec(path), n, id));
                assert(recs_view(self.handlers@) =~= hs.update(i as int, (path@, name@, id)));
                proof {
                    let h2 = recs_view(self.handlers@);
                    assert forall|a: int, b: int| 0 <= a < b < h2.len() implies !(h2[a].0 == h2[b].0 && h2[a].1 == h2[b].1) by {
                        if a != i && b != i {
                            assert(h2[a] == hs[a] && h2[b] == hs[b]);
                        } else if a == i {
                            assert(h2[b] == hs[b]);
                            assert(!(hs[i as int].0 == hs[b].0 && hs[i as int].1 == hs[b].1));
                        } else {
                            assert(h2[a] == hs[a]);
                            assert(!(hs[a].0 == hs[i as int].0 && hs[a].1 == hs[i as int].1));
                        }
                    }
                }
                return;
            }
            i = i + 1;
        }
        let ghost before = self.handlers@;
        self.handlers.push((vstd::slice::slice_to_vec(path), n, id));
        assert(recs_view(self.handlers@) =~= hs.push((path@, name@, id)));
        proof {
            let h2 = recs_view(self.handlers@);
            assert forall|a: int, b: int| 0 <= a < b < h2.len() implies !(h2[a].0 == h2[b].0 && h2[a].1 == h2[b].1) by {
                if b < hs.len() {
                    assert(h2[a] == hs[a] && h2[b] == hs[b]);
                } else {
                    assert(h2[a] == hs[a]);
                    assert(!handler_pos(hs, path@, name@, a));
                }
            }
        }
    }

    /// Ids of the listeners for `event_type` on the node at `path`.
    pub fn listeners(&self, path: &[usize], event_type: &str) -> (r: Vec<u64>)
        ensures
            r@ == listeners_spec(self.listeners_v(), path@, event_type@),
    {
        let ghost all = recs_view(self.listeners@);
        let ghost pred = on_node(path@, event_type@);
        let ty = String::from_str(event_type);
        let mut out: Vec<u64> = Vec::new();
        assert(out@ =~= all.take(0).filter(pred).map(rec_id()));
        for i in 0..self.listeners.len()
            invariant
                all == recs_view(self.listeners@),
                ty@ == event_type@,
                pred == on_node(path@, event_type@),
                out@ == all.take(i as int).filter(pred).map(rec_id()),
        {
            proof {
                all.take(i as int).lemma_filter_push(all[i as int], pred);
                assert(all.take(i + 1) =~= all.take(i as int).push(all[i as int]));
            }
            let r = &self.listeners[i];
            assert(all[i as int] == (r.0@, r.1@, r.2));
            if same_path(&r.0, path) && r.1 == ty {
                let ghost before = out@;
                out.push(r.2);
                assert(out@ =~= all.take(i + 1).filter(pred).map(rec_id()));
            } else {
                assert(out@ =~= all.take(i + 1).filter(pred).map(rec_id()));
            }
        }
        assert(all.take(all.len() as int) =~= all);
        out
    }

    /// The `name` handler of the node at `path`.
    pub fn handler(&self, path: &[usize], name: &str) -> (r: Option<u64>)
        requires
            self.wf(),
        ensures
            r == handler_spec(self.handlers_v(), path@, name@),
    {
        let ghost hs = recs_view(self.handlers@);
        let n = String::from_str(name);
        for i in 0..self.handlers.len()
            invariant
                hs == recs_view(self.handlers@),
                n@ == name@,
                handlers_unique(hs),
                forall|j: int| 0 <= j < i ==> !handler_pos(hs, path@, name@, j),
        {
            if same_path(&self.handlers[i].0, path) && self.handlers[i].1 == n {
                assert(handler_pos(hs, path@, name@, i as int));
                proof {
                    let k = choose|k: int| handler_pos(hs, path@, name@, k);
                    if k > i {
                        assert(!(hs[i as int].0 == hs[k].0 && hs[i as int].1 == hs[k].1));
                    }
                }
                return Some(self.handlers[i].2);
            }
        }
        None
    }

    /// The stops of an event of `event_type` dispatched at `path`: the
    /// target, then each ancestor up to the root.
    pub fn dispatch_plan(&self, path: &[usize], event_type: &str) -> (r: Vec<DispatchStop>)
        requires
            self.wf(),
        ensures
            r@.len() == path@.len() + 1,
            forall|k: int| 0 <= k < r@.len() ==> {
                let s = #[trigger] r@[k];
                let p = bubble_spec(path@)[k];
                &&& s.path@ == p
                &&& s.listeners@ == listeners_spec(self.listeners_v(), p, event_type@)
                &&& s.handler == handler_spec(self.handlers_v(), p, "on"@ + event_type@)
            },
    {
        let stops = bubble_path(path);
        let name = concat("on", event_type);
        let mut out: Vec<DispatchStop> = Vec::new();
        for k in 0..stops.len()
            invariant
                self.wf(),
                stops@.len() == path@.len() + 1,
                forall|j: int| 0 <= j < stops@.len() ==> (#[trigger] stops@[j])@ == bubble_spec(path@)[j],
                name@ == "on"@ + event_type@,
                out@.len() == k,
                forall|j: int| 0 <= j < k ==> {
                    let s = #[trigger] out@[j];
                    let p = bubble_spec(path@)[j];
                    &&& s.path@ == p
                    &&& s.listeners@ == listeners_spec(self.listeners_v(), p, event_type@)
                    &&& s.handler == handler_spec(self.handlers_v(), p, "on"@ + event_type@)
                },
        {
            let p = stops[k].clone();
            assert(p@ == stops@[k as int]@);
            let listeners = self.listeners(p.as_slice(), event_type);
            let handler = self.handler(p.as_slice(), name.as_str());
            out.push(DispatchStop { path: p, listeners, handler });
        }
        out
    }
}

/// A listener added and then removed is gone, whatever else is registered.
pub proof fn law_removed_listener_is_gone(recs: Seq<RecV>, path: Seq<usize>, ty: Seq<char>, id: u64)
    ensures
        !listeners_spec(without_listener(recs.push((path, ty, id)), path, ty, id), path, ty).contains(id),
{
    let all = recs.push((path, ty, id));
    let w = without_listener(all, path, ty, id);
    let f = w.filter(on_node(path, ty));
    let l = listeners_spec(w, path, ty);
    if l.contains(id) {
        let k = choose|k: int| 0 <= k < l.len() && l[k] == id;
        w.lemma_filter_pred(on_node(path, ty), k);
        assert(f.contains(f[k]));
        w.lemma_filter_contains_rev(on_node(path, ty), f[k]);
        let j = choose|j: int| 0 <= j < w.len() && w[j] == f[k];
        all.lemma_filter_pred(not_this(path, ty, id), j);
        assert(false);
    }
}

} // verus!
