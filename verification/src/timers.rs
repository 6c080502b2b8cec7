//! Deterministic `setTimeout` / `clearTimeout`: a first-in first-out queue
//! of pending callbacks with numeric ids, drained after the page's scripts
//! up to a fixed number of callbacks.

use vstd::prelude::*;

use crate::text::{concat, u64_text};

verus! {

/// Most callbacks that one drain runs.
pub const MAX_TIMER_DRAIN: usize = 10000;

/// A pending callback and its extra arguments.
#[derive(Debug, Clone, PartialEq, Eq)]
pub struct TimerTask<C> {
    pub id: u32,
    pub callback: C,
    pub args: Vec<C>,
}

/// Pending timers, oldest first.
#[derive(Debug, Clone, PartialEq, Eq)]
pub struct TimerQueue<C> {
    next_id: u32,
    tasks: Vec<TimerTask<C>>,
}

/// The id after `n`: one more, saturating at `u32::MAX`, never 0.
pub open spec fn next_timer_id(n: u32) -> u32 {
    if n == u32::MAX {
        u32::MAX
    } else {
        (n + 1) as u32
    }
}

/// The tasks whose id is not `id`, in order.
pub open spec fn keep_other<C>(tasks: Seq<TimerTask<C>>, id: u32) -> Seq<TimerTask<C>>
    decreases tasks.len(),
{
    if tasks.len() == 0 {
        Seq::empty()
    } else if tasks.last().id != id {
        keep_other(tasks.drop_last(), id).push(tasks.last())
    } else {
        keep_other(tasks.drop_last(), id)
    }
}

/// What a drain does next.
pub enum DrainStep<C> {
    /// No task is pending.
    Done,
    /// The next callback to invoke.
    Run(TimerTask<C>),
    /// A task was due but the drain limit was reached.
    LimitExceeded(String),
}

impl<C> TimerQueue<C> {
    pub closed spec fn tasks_spec(&self) -> Seq<TimerTask<C>> {
        self.tasks@
    }

    pub closed spec fn next_id_spec(&self) -> u32 {
        self.next_id
    }

    /// Ids are at least 1, at most the last id handed out, and never
    /// decrease from the front of the queue to its back.
    pub open spec fn wf(&self) -> bool {
        &&& forall|i: int|
            0 <= i < self.tasks_spec().len() ==> 1 <= (#[trigger] self.tasks_spec()[i]).id
                <= self.next_id_spec()
        &&& forall|i: int, j: int|
            0 <= i < j < self.tasks_spec().len() ==> self.tasks_spec()[i].id
                <= self.tasks_spec()[j].id
    }

    pub fn new() -> (r: Self)
        ensures
            r.wf(),
            r.tasks_spec().len() == 0,
            r.next_id_spec() == 0,
    {
        TimerQueue { next_id: 0, tasks: Vec::new() }
    }

    /// `setTimeout(callback, delay, ...args)`: queues the callback and
    /// returns its id (the delay does not order callbacks).
    pub fn set_timeout(&mut self, callback: C, args: Vec<C>) -> (id: u32)
        requires
            old(self).wf(),
        ensures
            final(self).wf(),
            id == next_timer_id(old(self).next_id_spec()),
            final(self).next_id_spec() == id,
            final(self).tasks_spec() == old(self).tasks_spec().push(TimerTask { id, callback, args }),
    {
        let next = if self.next_id == u32::MAX { u32::MAX } else { self.next_id + 1 };
        let ghost before = self.tasks@;
        self.next_id = next;
        self.tasks.push(TimerTask { id: next, callback, args });
        assert forall|i: int| 0 <= i < self.tasks@.len() implies 1 <= (#[trigger] self.tasks@[i]).id <= self.next_id by {
            if i < before.len() {
                assert(self.tasks@[i] == before[i]);
                assert(old(self).tasks_spec()[i] == before[i]);
            }
        }
        assert forall|i: int, j: int| 0 <= i < j < self.tasks@.len() implies self.tasks@[i].id <= self.tasks@[j].id by {
            assert(self.tasks@[i] == before[i]);
            assert(old(self).tasks_spec()[i] == before[i]);
            if j < before.len() {
                assert(self.tasks@[j] == before[j]);
                assert(old(self).tasks_spec()[j] == before[j]);
            }
        }
        next
    }

    /// `clearTimeout(id)`: drops every pending task with that id.
    pub fn clear_timeout(&mut self, id: u32)
        requires
            old(self).wf(),
        ensures
            final(self).wf(),
            final(self).next_id_spec() == old(self).next_id_spec(),
            final(self).tasks_spec() == keep_other(old(self).tasks_spec(), id),
    {
        let ghost orig = self.tasks@;
        let mut i: usize = 0;
        let ghost mut j: int = 0;
        assert(orig.take(0) =~= Seq::<TimerTask<C>>::empty());
        assert(self.tasks@.skip(0) =~= orig.skip(0));
        while i < self.tasks.len()
            invariant
                0 <= i <= self.tasks@.len(),
                0 <= j <= orig.len(),
                self.tasks@.len() - i == orig.len() - j,
                self.tasks@.take(i as int) == keep_other(orig.take(j), id),
                self.tasks@.skip(i as int) == orig.skip(j),
                self.next_id == old(self).next_id,
                old(self).wf(),
                orig == old(self).tasks@,
            decreases self.tasks@.len() - i,
        {
            assert(orig.take(j + 1).drop_last() =~= orig.take(j));
            assert(self.tasks@.skip(i as int)[0] == orig.skip(j)[0]);
            assert(orig.skip(j)[0] == orig[j]);
            if self.tasks[i].id == id {
                let ghost before = self.tasks@;
                let _t = self.tasks.remove(i);
                assert(self.tasks@.take(i as int) =~= before.take(i as int));
                assert(before.skip(i as int).drop_first() =~= before.skip(i + 1));
                assert(orig.skip(j).drop_first() =~= orig.skip(j + 1));
                assert(self.tasks@.skip(i as int) =~= before.skip(i + 1));
                assert(self.tasks@.skip(i as int) =~= orig.skip(j + 1));
                proof {
                    j = j + 1;
                }
            } else {
                let ghost before = self.tasks@;
                assert(before.take(i + 1) =~= before.take(i as int).push(before[i as int]));
                assert(before.skip(i as int).drop_first() =~= before.skip(i + 1));
                assert(orig.skip(j).drop_first() =~= orig.skip(j + 1));
                assert(before.skip(i + 1) =~= orig.skip(j + 1));
                i = i + 1;
                proof {
                    j = j + 1;
                }
            }
        }
        assert(orig.take(j) =~= orig);
        assert(self.tasks@.take(i as int) =~= self.tasks@);
        proof {
            assert(orig == old(self).tasks_spec());
            assert forall|a: int, b: int| 0 <= a < b < orig.len() implies orig[a].id <= orig[b].id by {
                assert(old(self).tasks_spec()[a] == orig[a]);
                assert(old(self).tasks_spec()[b] == orig[b]);
            }
            assert forall|a: int| 0 <= a < orig.len() implies 1 <= (#[trigger] orig[a]).id <= self.next_id by {
                assert(old(self).tasks_spec()[a] == orig[a]);
            }
            lemma_keep_other_sorted(orig, id);
            lemma_keep_other_bounds(orig, id, 1, self.next_id);
        }
    }

    /// Takes the next task for a drain that has already run `drained`
    /// callbacks.
    pub fn drain_step(&mut self, drained: usize) -> (r: DrainStep<C>)
        requires
            old(self).wf(),
        ensures
            final(self).wf(),
            final(self).next_id_spec() == old(self).next_id_spec(),
            old(self).tasks_spec().len() == 0 ==> r is Done && final(self).tasks_spec() == old(self).tasks_spec(),
            old(self).tasks_spec().len() > 0 ==> final(self).tasks_spec() == old(self).tasks_spec().drop_first(),
            old(self).tasks_spec().len() > 0 && drained < MAX_TIMER_DRAIN ==> (r matches DrainStep::Run(t)
                && t == old(self).tasks_spec()[0]),
            old(self).tasks_spec().len() > 0 && drained >= MAX_TIMER_DRAIN ==> (r matches DrainStep::LimitExceeded(m)
                && m@ == "setTimeout: exceeded deterministic drain limit of 10000 callbacks"@),
    {
        if self.tasks.len() == 0 {
            return DrainStep::Done;
        }
        let task = self.tasks.remove(0);
        assert(self.tasks@ =~= old(self).tasks@.drop_first());
        assert forall|i: int, j: int| 0 <= i < j < self.tasks@.len() implies self.tasks@[i].id <= self.tasks@[j].id by {
            assert(self.tasks@[i] == old(self).tasks@[i + 1]);
            assert(self.tasks@[j] == old(self).tasks@[j + 1]);
        }
        assert forall|i: int| 0 <= i < self.tasks@.len() implies 1 <= (#[trigger] self.tasks@[i]).id <= self.next_id by {
            assert(self.tasks@[i] == old(self).tasks@[i + 1]);
        }
        if drained >= MAX_TIMER_DRAIN {
            let limit = u64_text(MAX_TIMER_DRAIN as u64);
            let mut m = concat("setTimeout: exceeded deterministic drain limit of ", limit.as_str());
            m.append(" callbacks");
            proof {
                reveal_strlit("setTimeout: exceeded deterministic drain limit of ");
                reveal_strlit(" callbacks");
                reveal_strlit("setTimeout: exceeded deterministic drain limit of 10000 callbacks");
                reveal_with_fuel(crate::text::nat_digits, 6);
                assert(m@ =~= "setTimeout: exceeded deterministic drain limit of 10000 callbacks"@);
            }
            return DrainStep::LimitExceeded(m);
        }
        DrainStep::Run(task)
    }
}

proof fn lemma_keep_other_bounds<C>(tasks: Seq<TimerTask<C>>, id: u32, lo: u32, hi: u32)
    requires
        forall|i: int| 0 <= i < tasks.len() ==> lo <= (#[trigger] tasks[i]).id <= hi,
    ensures
        forall|i: int| 0 <= i < keep_other(tasks, id).len() ==> lo <= (#[trigger] keep_other(tasks, id)[i]).id <= hi,
    decreases tasks.len(),
{
    if tasks.len() > 0 {
        let d = tasks.drop_last();
        assert forall|i: int| 0 <= i < d.len() implies lo <= (#[trigger] d[i]).id <= hi by {
            assert(d[i] == tasks[i]);
        }
        lemma_keep_other_bounds(d, id, lo, hi);
        let k = keep_other(d, id);
        if tasks.last().id != id {
            assert forall|i: int| 0 <= i < k.push(tasks.last()).len() implies lo <= (#[trigger] k.push(tasks.last())[i]).id <= hi by {
                if i < k.len() {
                    assert(k.push(tasks.last())[i] == k[i]);
                }
            }
        }
    }
}

proof fn lemma_keep_other_sorted<C>(tasks: Seq<TimerTask<C>>, id: u32)
    requires
        forall|i: int, j: int| 0 <= i < j < tasks.len() ==> tasks[i].id <= tasks[j].id,
    ensures
        forall|i: int, j: int| 0 <= i < j < keep_other(tasks, id).len() ==> keep_other(tasks, id)[i].id <= keep_other(tasks, id)[j].id,
    decreases tasks.len(),
{
    if tasks.len() > 0 {
        let d = tasks.drop_last();
        assert forall|i: int, j: int| 0 <= i < j < d.len() implies d[i].id <= d[j].id by {
            assert(d[i] == tasks[i] && d[j] == tasks[j]);
        }
        lemma_keep_other_sorted(d, id);
        if tasks.last().id != id {
            assert forall|i: int| 0 <= i < d.len() implies 0 <= (#[trigger] d[i]).id <= tasks.last().id by {
                assert(d[i] == tasks[i]);
            }
            lemma_keep_other_bounds(d, id, 0, tasks.last().id);
            let k = keep_other(d, id);
            let kk = k.push(tasks.last());
            assert forall|i: int, j: int| 0 <= i < j < kk.len() implies kk[i].id <= kk[j].id by {
                assert(kk[i] == k[i]);
                if j < k.len() {
                    assert(kk[j] == k[j]);
                }
            }
        }
    }
}

/// While ids have not reached `u32::MAX`, a new timer's id is larger than
/// every pending timer's id.
pub proof fn law_timer_ids_increase<C>(q: TimerQueue<C>)
    requires
        q.wf(),
        q.next_id_spec() < u32::MAX,
    ensures
        forall|i: int| 0 <= i < q.tasks_spec().len() ==> (#[trigger] q.tasks_spec()[i]).id < next_timer_id(q.next_id_spec()),
{
}

/// `clearTimeout(id)` leaves no task with that id.
pub proof fn law_clear_timeout_removes<C>(tasks: Seq<TimerTask<C>>, id: u32)
    ensures
        forall|i: int| 0 <= i < keep_other(tasks, id).len() ==> (#[trigger] keep_other(tasks, id)[i]).id != id,
    decreases tasks.len(),
{
    if tasks.len() > 0 {
        law_clear_timeout_removes(tasks.drop_last(), id);
        let k = keep_other(tasks.drop_last(), id);
        if tasks.last().id != id {
            assert forall|i: int| 0 <= i < k.push(tasks.last()).len() implies (#[trigger] k.push(tasks.last())[i]).id != id by {
                if i < k.len() {
                    assert(k.push(tasks.last())[i] == k[i]);
                }
            }
        }
    }
}

} // verus!
