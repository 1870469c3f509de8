//! Trace handles: the baton that carries a trace to another thread or task,
//! recording the wait before each attachment.
use vstd::prelude::*;

use crate::clock::{end_now, now, Cycle};
use crate::collection::{Acquirer, LocalSpans, SpanCollection};
use crate::local::{closed_at, current_parent, SpanLine};
use crate::properties::Properties;
use crate::scope::{ended_spans, opened_as, opened_over, parent_ids, LocalScopeGuard, Scope};
use crate::span::{RawSpan, State};

verus! {

/// A span opened on a thread's span line, closed by `finish`.
#[derive(Debug)]
pub struct SpanGuard {
    index: usize,
}

impl SpanGuard {
    pub closed spec fn index(&self) -> usize {
        self.index
    }

    /// Closes the span now.
    pub fn finish(self, line: &mut SpanLine)
        requires
            old(line).wf(),
        ensures
            final(line).wf(),
            exists|end: Cycle| end > 0 && #[trigger] closed_at(old(line)@, final(line)@, self.index(), end),
    {
        let end = end_now();
        line.finish_span(self.index, end);
        assert(closed_at(old(line)@, final(line)@, self.index(), end));
    }
}

/// Opens a span under the current parent of the thread; `None` when no
/// trace is active on it.
pub fn new_span(line: &mut SpanLine, event: u32) -> (r: Option<SpanGuard>)
    requires
        old(line).wf(),
    ensures
        final(line).wf(),
        final(line)@.registered == old(line)@.registered,
        final(line)@.scope_id == old(line)@.scope_id,
        r is None <==> !old(line)@.registered,
        r is None ==> final(line)@ == old(line)@,
        r matches Some(g) ==> {
            let s = final(line)@.spans[g.index() as int];
            &&& g.index() == old(line)@.spans.len()
            &&& final(line)@.spans.len() == old(line)@.spans.len() + 1
            &&& final(line)@.open == old(line)@.open.push(g.index())
            &&& final(line)@.spans.drop_last() == old(line)@.spans
            &&& final(line)@.scope_id == old(line)@.scope_id
            &&& final(line)@.props == old(line)@.props
            &&& s.parent_id == match current_parent(old(line)@) {
                Some(p) => p,
                None => 0,
            }
            &&& s.event == event
            &&& s.state == State::Local
            &&& s.end_cycle == 0
        },
{
    match line.start_span(event, now(), State::Local) {
        Some(index) => Some(SpanGuard { index }),
        None => None,
    }
}

/// What a handle holds while its trace is alive.
#[derive(Debug)]
pub struct HandleInner {
    acquirers: Vec<Acquirer>,
    spawn_id: u32,
    spawn_parent_id: u32,
    created: Cycle,
    event: u32,
    pending_event: u32,
    next_parent_id: u32,
    suspend_begin: Cycle,
    next_state: State,
}

/// The plain values of a live handle.
pub struct HandleView {
    /// The id of the placeholder that stands for the handle's lifetime.
    pub spawn_id: u32,
    /// The span that was current where the handle was taken.
    pub spawn_parent_id: u32,
    pub event: u32,
    pub pending_event: u32,
    /// The parent of the next wait span.
    pub next_parent_id: u32,
    /// When the current wait began.
    pub suspend_begin: Cycle,
    /// The kind of the next wait span.
    pub next_state: State,
    /// When the handle was taken.
    pub created: Cycle,
    /// How many traces the handle carries.
    pub routes: nat,
}

/// Carries a trace across threads and tasks. Dormant when taken where no
/// trace was active.
#[derive(Debug)]
pub struct TraceHandle {
    inner: Option<HandleInner>,
}

impl View for TraceHandle {
    type V = Option<HandleView>;

    closed spec fn view(&self) -> Option<HandleView> {
        match self.inner {
            Some(h) => Some(
                HandleView {
                    spawn_id: h.spawn_id,
                    spawn_parent_id: h.spawn_parent_id,
                    event: h.event,
                    pending_event: h.pending_event,
                    next_parent_id: h.next_parent_id,
                    suspend_begin: h.suspend_begin,
                    next_state: h.next_state,
                    created: h.created,
                    routes: h.acquirers@.len(),
                },
            ),
            None => None,
        }
    }
}

/// The wait span recorded when a handle is attached at `now`: from the
/// start of the wait to `now`, under the handle's next parent.
pub open spec fn wait_span(h: HandleView, id: u32, now: Cycle) -> RawSpan {
    RawSpan {
        id,
        parent_id: h.next_parent_id,
        begin_cycle: h.suspend_begin,
        end_cycle: now,
        event: h.pending_event,
        state: h.next_state,
        is_spawn_span: false,
        descendant_count: 0,
    }
}

/// The handle after an attachment whose settle span has id `settle_id`:
/// later waits hang under that settle span and are scheduling waits.
pub open spec fn after_attach(h: HandleView, settle_id: u32) -> HandleView {
    HandleView { next_parent_id: settle_id, next_state: State::Scheduling, ..h }
}

/// The guard of an attachment: the wait span that was sent, the settle
/// scope, and its attachment to the thread.
#[derive(Debug)]
pub struct LocalTraceGuard {
    pending: RawSpan,
    scope: Scope,
    guard: LocalScopeGuard,
}

impl LocalTraceGuard {
    pub closed spec fn scope(&self) -> Scope {
        self.scope
    }

    pub closed spec fn pending(&self) -> RawSpan {
        self.pending
    }

    /// Whether the settle scope was attached to the thread.
    pub closed spec fn attached(&self) -> bool {
        self.guard.attached_spec()
    }

    /// The wait span sent when the handle was attached.
    pub fn pending_span(&self) -> (r: RawSpan)
        ensures
            r == self.pending(),
    {
        self.pending
    }

    /// The id of the settle span, when it was opened for a live trace.
    pub fn settle_id(&self) -> (r: Option<u32>)
        ensures
            r == match self.scope()@ {
                Some(v) => Some(v.scope_id),
                None => None,
            },
    {
        self.scope.id()
    }
}

/// What attaching a handle yields: a settle scope on a free thread, or a
/// plain span on a thread that already has a trace.
#[derive(Debug)]
pub enum SettleGuard {
    TraceGuard(LocalTraceGuard),
    SpanGuard(SpanGuard),
}

impl SettleGuard {
    /// Ends the attachment. For a settle scope the thread's spans go to the
    /// collectors, the settle spans are closed at one exit reading and sent,
    /// and the handle's next wait begins at that same reading. Returns the
    /// settle spans sent (none for a plain span).
    pub fn finish(self, line: &mut SpanLine, handle: &mut TraceHandle) -> (r: Vec<RawSpan>)
        requires
            old(line).wf(),
        ensures
            final(line).wf(),
            self is TraceGuard ==> exists|t: Cycle|
                t > 0 && r@ == #[trigger] ended_spans(self->TraceGuard_0.scope()@, t) && (old(handle)@ is Some
                    ==> final(handle)@ == Some(HandleView { suspend_begin: t, ..old(handle)@->Some_0 })),
            self is SpanGuard ==> r@.len() == 0,
            old(handle)@ is None ==> final(handle)@ is None,
            !(self is TraceGuard) ==> final(handle)@ == old(handle)@,
            (self is TraceGuard && self->TraceGuard_0.attached()) ==> !final(line)@.registered
                && final(line)@.spans.len() == 0 && final(line)@.open.len() == 0,
            (self is TraceGuard && !self->TraceGuard_0.attached()) ==> final(line)@ == old(line)@,
            self is SpanGuard ==> exists|end: Cycle| #[trigger] closed_at(
                old(line)@,
                final(line)@,
                self->SpanGuard_0.index(),
                end,
            ),
    {
        match self {
            SettleGuard::TraceGuard(g) => {
                let ghost settle = g.scope()@;
                let _ = g.guard.finish(line);
                let t = end_now();
                let ended = g.scope.finish_at(t);
                handle.set_suspend_begin(t);
                assert(ended@ == ended_spans(settle, t));
                ended
            },
            SettleGuard::SpanGuard(s) => {
                s.finish(line);
                Vec::new()
            },
        }
    }
}

/// Captures the trace active on the thread, for use elsewhere. The handle
/// hangs under the current span, and its waits under the handle; it is
/// dormant when no scope is attached to the thread.
pub fn trace_binder_fine(line: &mut SpanLine, event: u32, pending_event: u32) -> (h: TraceHandle)
    requires
        old(line).wf(),
    ensures
        final(line).wf(),
        final(line)@ == old(line)@,
        old(line)@.scope_id is None ==> h@ is None,
        old(line)@.scope_id is Some ==> (h@ matches Some(v) && v.spawn_parent_id == current_parent(old(line)@)->Some_0
            && v.next_parent_id == v.spawn_id && v.next_state == State::Spawning && v.event == event
            && v.pending_event == pending_event && v.spawn_id != 0 && v.spawn_id != old(line).last_id()
            && v.created == v.suspend_begin && v.routes == old(line)@.routes),
{
    let acquirers = match line.acquirers() {
        Some(a) => a,
        None => return TraceHandle { inner: None },
    };
    let spawn_parent_id = match line.current_parent_id() {
        Some(p) => p,
        None => 0,
    };
    let spawn_id = line.next_id();
    let t = now();
    TraceHandle {
        inner: Some(
            HandleInner {
                acquirers,
                spawn_id,
                spawn_parent_id,
                created: t,
                event,
                pending_event,
                next_parent_id: spawn_id,
                suspend_begin: t,
                next_state: State::Spawning,
            },
        ),
    }
}

/// `trace_binder_fine` with one event for the handle and its waits.
pub fn trace_binder(line: &mut SpanLine, event: u32) -> (h: TraceHandle)
    requires
        old(line).wf(),
    ensures
        final(line).wf(),
        final(line)@ == old(line)@,
        old(line)@.scope_id is None ==> h@ is None,
        old(line)@.scope_id is Some ==> (h@ matches Some(v) && v.spawn_parent_id == current_parent(old(line)@)->Some_0
            && v.next_parent_id == v.spawn_id && v.next_state == State::Spawning && v.event == event
            && v.pending_event == event && v.spawn_id != old(line).last_id() && v.created == v.suspend_begin
            && v.routes == old(line)@.routes),
{
    trace_binder_fine(line, event, event)
}

impl TraceHandle {
    /// A handle on the traces of `scope`, hanging under it; dormant for an
    /// empty scope.
    pub fn from_scope(scope: &Scope, line: &mut SpanLine, event: u32, pending_event: u32) -> (h: TraceHandle)
        requires
            old(line).wf(),
        ensures
            final(line).wf(),
            final(line)@ == old(line)@,
            scope@ is None ==> h@ is None,
            scope@ is Some ==> (h@ matches Some(v) && v.spawn_parent_id == scope@->Some_0.scope_id
                && v.next_parent_id == v.spawn_id && v.next_state == State::Spawning && v.event == event
                && v.pending_event == pending_event && v.spawn_id != 0 && v.spawn_id != old(line).last_id()
                && v.created == v.suspend_begin && v.routes == scope@->Some_0.spans.len()),
    {
        let spawn_parent_id = match scope.id() {
            Some(id) => id,
            None => return TraceHandle { inner: None },
        };
        let acquirers = scope.acquirers();
        let spawn_id = line.next_id();
        let t = now();
        TraceHandle {
            inner: Some(
                HandleInner {
                    acquirers,
                    spawn_id,
                    spawn_parent_id,
                    created: t,
                    event,
                    pending_event,
                    next_parent_id: spawn_id,
                    suspend_begin: t,
                    next_state: State::Spawning,
                },
            ),
        }
    }

    /// A handle that carries no trace.
    pub fn dormant() -> (h: TraceHandle)
        ensures
            h@ is None,
    {
        TraceHandle { inner: None }
    }

    fn set_suspend_begin(&mut self, t: Cycle)
        ensures
            old(self)@ is None ==> final(self)@ is None,
            old(self)@ matches Some(h) ==> final(self)@ == Some(HandleView { suspend_begin: t, ..h }),
    {
        match &mut self.inner {
            Some(inner) => {
                inner.suspend_begin = t;
            },
            None => {},
        }
    }

    /// Resumes the trace on this thread. On a free thread it sends the wait
    /// span (from the start of the wait to now, under the handle's next
    /// parent), opens a settle span under it starting at the same instant,
    /// attaches it, and moves the handle on: the next wait hangs under the
    /// settle span and is a scheduling wait. On a thread that already has
    /// a trace it opens a plain span there. A dormant handle does nothing.
    pub fn trace_enable(&mut self, line: &mut SpanLine, event: u32) -> (r: Option<SettleGuard>)
        requires
            old(line).wf(),
        ensures
            final(line).wf(),
            old(self)@ is None ==> r is None && final(line)@ == old(line)@ && final(self)@ is None,
            (old(self)@ is Some && old(line)@.registered) ==> (r matches Some(SettleGuard::SpanGuard(g))
                && final(self)@ == old(self)@ && g.index() == old(line)@.spans.len() && {
                let s = final(line)@.spans[g.index() as int];
                &&& final(line)@.spans.len() == old(line)@.spans.len() + 1
                &&& final(line)@.spans.drop_last() == old(line)@.spans
                &&& final(line)@.open == old(line)@.open.push(g.index())
                &&& final(line)@.props == old(line)@.props
                &&& s.parent_id == match current_parent(old(line)@) {
                    Some(p) => p,
                    None => 0,
                }
                &&& s.event == event
                &&& s.state == State::Local
                &&& s.end_cycle == 0
            }),
            old(line)@.registered ==> final(line)@.registered && final(line)@.scope_id == old(line)@.scope_id,
            (old(self)@ is Some && !old(line)@.registered) ==> (r matches Some(SettleGuard::TraceGuard(g)) && {
                let h = old(self)@->Some_0;
                let settle_begin = g.pending().end_cycle;
                &&& g.pending() == wait_span(h, g.pending().id, settle_begin)
                &&& g.pending().id != 0
                &&& g.attached() == g.scope()@ is Some
                &&& opened_over(g.scope()@, Seq::new(h.routes, |k: int| g.pending().id), event, State::Settle)
                &&& g.scope()@ matches Some(v) ==> {
                    &&& v.scope_id != g.pending().id
                    &&& opened_as(v, settle_begin, event, State::Settle)
                    &&& forall|k: int| 0 <= k < v.spans.len() ==> (#[trigger] v.spans[k]).parent_id == g.pending().id
                    &&& final(self)@ == Some(after_attach(h, v.scope_id))
                    &&& final(line)@.registered && final(line)@.scope_id == Some(v.scope_id)
                    &&& final(line)@.spans.len() == 0 && final(line)@.open.len() == 0
                }
                &&& g.scope()@ is None ==> final(line)@ == old(line)@
                &&& final(self)@ matches Some(h2) && h2.next_state == State::Scheduling
            }),
    {
        if self.inner.is_none() {
            return None;
        }
        if line.is_occupied() {
            return match new_span(line, event) {
                Some(g) => Some(SettleGuard::SpanGuard(g)),
                None => None,
            };
        }
        let t = end_now();
        let pending_id = line.next_id();
        let settle_id = line.next_id();
        let inner = self.inner.as_mut().unwrap();
        let pending = RawSpan {
            id: pending_id,
            parent_id: inner.next_parent_id,
            begin_cycle: inner.suspend_begin,
            end_cycle: t,
            event: inner.pending_event,
            state: inner.next_state,
            is_spawn_span: false,
            descendant_count: 0,
        };
        let mut parents: Vec<(u32, Acquirer)> = Vec::new();
        let mut i: usize = 0;
        while i < inner.acquirers.len()
            invariant
                i <= inner.acquirers@.len(),
                forall|k: int| 0 <= k < parents@.len() ==> (#[trigger] parents@[k]).0 == pending_id,
                parent_ids(parents@) == Seq::new(i as nat, |k: int| pending_id),
            decreases inner.acquirers@.len() - i,
        {
            let _ = inner.acquirers[i].submit(SpanCollection::ScopeSpan(pending));
            let ghost prev = parents@;
            parents.push((pending_id, inner.acquirers[i].clone()));
            assert(parent_ids(parents@) =~= parent_ids(prev).push(pending_id));
            assert(parent_ids(parents@) =~= Seq::new((i + 1) as nat, |k: int| pending_id));
            i = i + 1;
        }
        let scope = crate::scope::open_scope(&parents, settle_id, t, event, State::Settle);
        let guard = scope.attach(line);
        inner.next_parent_id = settle_id;
        inner.next_state = State::Scheduling;
        proof {
            if scope@ is Some {
                let v = scope@->Some_0;
                assert forall|k: int| 0 <= k < v.spans.len() implies (#[trigger] v.spans[k]).parent_id == pending_id by {
                    let p = choose|p: int| 0 <= p < parents@.len() && (#[trigger] parents@[p]).0 == v.spans[k].parent_id;
                }
            }
        }
        Some(SettleGuard::TraceGuard(LocalTraceGuard { pending, scope, guard }))
    }

    /// Lets go of the handle. A live handle sends the placeholder that
    /// stands for its lifetime, from its capture to now, under the span that
    /// was current at capture; its waits are placed under that span.
    /// Returns the batch that was handed to the routes (each got a copy).
    pub fn finish(self) -> (r: Option<SpanCollection>)
        ensures
            self@ is None ==> r is None,
            self@ is Some ==> r is Some && exists|end: Cycle| #[trigger] is_lifetime_batch(r->Some_0, self@->Some_0, end),
    {
        let t = end_now();
        let r = self.lifetime_batch(t);
        if let (Some(inner), Some(msg)) = (&self.inner, &r) {
            crate::scope::submit_all(&inner.acquirers, msg);
        }
        proof {
            if self@ is Some {
                assert(is_lifetime_batch(r->Some_0, self@->Some_0, t));
            }
        }
        r
    }

    /// The batch that stands for the handle's lifetime, ended at `end`.
    fn lifetime_batch(&self, end: Cycle) -> (r: Option<SpanCollection>)
        ensures
            self@ is None ==> r is None,
            self@ is Some ==> (r matches Some(m) && is_lifetime_batch(m, self@->Some_0, end)),
    {
        match &self.inner {
            Some(inner) => {
                let spawn = RawSpan {
                    id: inner.spawn_id,
                    parent_id: inner.spawn_parent_id,
                    begin_cycle: inner.created,
                    end_cycle: end,
                    event: inner.event,
                    state: State::Pending,
                    is_spawn_span: true,
                    descendant_count: 0,
                };
                let spans = vec![spawn];
                let batch = LocalSpans { spans, properties: Properties::new(), end_time: end };
                assert(batch.spans@ =~= seq![spawn]);
                Some(SpanCollection::LocalSpans { spans: batch, parent_scope_id: inner.spawn_parent_id })
            },
            None => None,
        }
    }
}

/// The placeholder that stands for a handle's lifetime, from its capture
/// to `end`, under the span that was current at capture.
pub open spec fn lifetime_span(v: HandleView, end: Cycle) -> RawSpan {
    RawSpan {
        id: v.spawn_id,
        parent_id: v.spawn_parent_id,
        begin_cycle: v.created,
        end_cycle: end,
        event: v.event,
        state: State::Pending,
        is_spawn_span: true,
        descendant_count: 0,
    }
}

/// `m` is the batch a handle sends when let go at `end`: its lifetime
/// placeholder alone, with no properties, under the span current at capture.
pub open spec fn is_lifetime_batch(m: SpanCollection, v: HandleView, end: Cycle) -> bool {
    match m {
        SpanCollection::LocalSpans { spans, parent_scope_id } => {
            &&& parent_scope_id == v.spawn_parent_id
            &&& spans.spans@ == seq![lifetime_span(v, end)]
            &&& spans.properties.wf()
            &&& spans.properties.entries().len() == 0
            &&& spans.end_time == end
        },
        _ => false,
    }
}

/// The handle after attachments whose settle spans have ids `settle_ids`,
/// in order.
pub open spec fn attach_all(h: HandleView, settle_ids: Seq<u32>) -> HandleView
    decreases settle_ids.len(),
{
    if settle_ids.len() == 0 {
        h
    } else {
        after_attach(attach_all(h, settle_ids.drop_last()), settle_ids.last())
    }
}

proof fn lemma_attach_all_keeps_identity(h: HandleView, settle_ids: Seq<u32>)
    ensures
        attach_all(h, settle_ids).spawn_id == h.spawn_id,
        attach_all(h, settle_ids).spawn_parent_id == h.spawn_parent_id,
        attach_all(h, settle_ids).event == h.event,
        attach_all(h, settle_ids).pending_event == h.pending_event,
    decreases settle_ids.len(),
{
    if settle_ids.len() > 0 {
        lemma_attach_all_keeps_identity(h, settle_ids.drop_last());
    }
}

/// A handle attached N times records N waits, one per attachment, each
/// paired with the settle span opened with it: the first wait is a
/// spawning wait under the handle's placeholder, and every later one is a
/// scheduling wait under the settle span of the attachment before it. The
/// handle keeps one placeholder throughout, which `finish` sends once.
pub proof fn lemma_attachments_pair_up(h: HandleView, settle_ids: Seq<u32>, k: int, pending_id: u32, now: Cycle)
    requires
        h.next_state == State::Spawning,
        h.next_parent_id == h.spawn_id,
        0 <= k < settle_ids.len(),
    ensures
        k == 0 ==> wait_span(attach_all(h, settle_ids.take(k)), pending_id, now).state == State::Spawning
            && wait_span(attach_all(h, settle_ids.take(k)), pending_id, now).parent_id == h.spawn_id,
        k > 0 ==> wait_span(attach_all(h, settle_ids.take(k)), pending_id, now).state == State::Scheduling
            && wait_span(attach_all(h, settle_ids.take(k)), pending_id, now).parent_id == settle_ids[k - 1],
        wait_span(attach_all(h, settle_ids.take(k)), pending_id, now).event == h.pending_event,
        attach_all(h, settle_ids).spawn_id == h.spawn_id,
        attach_all(h, settle_ids).next_parent_id == settle_ids.last(),
        attach_all(h, settle_ids).next_state == State::Scheduling,
{
    let pre = settle_ids.take(k);
    lemma_attach_all_keeps_identity(h, pre);
    lemma_attach_all_keeps_identity(h, settle_ids);
    if k == 0 {
        assert(pre.len() == 0);
    } else {
        assert(pre.drop_last() =~= settle_ids.take(k - 1));
        assert(pre.last() == settle_ids[k - 1]);
    }
}

} // verus!
