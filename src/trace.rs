//! Entry points: starting a trace on a thread, spans and properties, and
//! local collection without a trace.
use vstd::prelude::*;

use crate::clock::{now, Cycle};
use crate::collection::{LocalSpans, SpanCollection};
use crate::collector::Collector;
use crate::local::{current_parent, Registration, SpanLine, SpanLineView};
use crate::properties::Properties;
use crate::handle::{SettleGuard, TraceHandle};
use crate::scope::{ended_spans, is_drained_batch, opened_as, LocalScopeGuard, Scope, ScopeView};
use crate::span::{RawSpan, State};

verus! {

/// The guard of a trace started on a thread: its root scope, attached.
#[derive(Debug)]
pub struct LocalGuard {
    scope: Scope,
    guard: Option<LocalScopeGuard>,
    settle: Option<(SettleGuard, TraceHandle)>,
}

impl LocalGuard {
    pub closed spec fn root_id(&self) -> u32 {
        match self.scope@ {
            Some(v) => v.scope_id,
            None => 0,
        }
    }

    /// Whether the guard holds the thread: it attached the root scope, or
    /// a settle scope.
    pub closed spec fn holds_thread(&self) -> bool {
        ||| (self.guard matches Some(g) && g.attached_spec())
        ||| (self.settle matches Some((SettleGuard::TraceGuard(t), _)) && t.attached())
    }

    /// The root scope of the trace.
    pub closed spec fn root_scope(&self) -> Option<ScopeView> {
        self.scope@
    }

    /// Whether the guard attached the root scope itself.
    pub closed spec fn attached_root(&self) -> bool {
        self.guard matches Some(g) && g.attached_spec()
    }

    /// The settle scope opened when the trace was resumed on the thread.
    pub closed spec fn settle_scope(&self) -> Option<ScopeView> {
        match self.settle {
            Some((SettleGuard::TraceGuard(t), _)) => t.scope()@,
            _ => None,
        }
    }

    /// The wait span recorded when the trace was resumed on the thread.
    pub closed spec fn settle_wait(&self) -> Option<RawSpan> {
        match self.settle {
            Some((SettleGuard::TraceGuard(t), _)) => Some(t.pending()),
            _ => None,
        }
    }

    /// The id of the root span.
    pub fn root_id_exec(&self) -> (r: u32)
        ensures
            r == self.root_id(),
    {
        match self.scope.id() {
            Some(id) => id,
            None => 0,
        }
    }

    /// Ends the trace on this thread: the thread's spans go to the
    /// collector, then the root span. Returns the batch handed over when the
    /// root itself held the thread, and the root spans sent.
    pub fn finish(self, line: &mut SpanLine) -> (r: (Option<SpanCollection>, Vec<RawSpan>))
        requires
            old(line).wf(),
        ensures
            final(line).wf(),
            self.holds_thread() ==> !final(line)@.registered && final(line)@.spans.len() == 0
                && final(line)@.open.len() == 0,
            (self.attached_root() && old(line)@.scope_id is Some) ==> (r.0 matches Some(
                SpanCollection::LocalSpans { spans, parent_scope_id },
            ) && is_drained_batch(spans, old(line)@) && old(line)@.scope_id == Some(parent_scope_id)),
            exists|t: Cycle| t > 0 && r.1@ == #[trigger] ended_spans(self.root_scope(), t),
    {
        let batch = match self.guard {
            Some(g) => g.finish(line),
            None => None,
        };
        if let Some((settle, handle)) = self.settle {
            let mut handle = handle;
            let _ = settle.finish(line, &mut handle);
            let _ = handle.finish();
        }
        let ended = self.scope.finish();
        (batch, ended)
    }
}

/// The root of `g` is one span named `event`, with no parent.
pub open spec fn rooted_as(g: LocalGuard, event: u32) -> bool {
    g.root_scope() matches Some(v) && v.scope_id == g.root_id() && v.spans.len() == 1 && v.spans[0].event == event
        && v.spans[0].state == State::Root && v.spans[0].parent_id == 0 && v.spans[0].end_cycle == 0
}

/// `g` started a trace on the line that went from `o` to `f`: a free line
/// is held by the new root, a busy one is left as it was.
pub open spec fn trace_started(o: SpanLineView, f: SpanLineView, g: LocalGuard, event: u32) -> bool {
    &&& g.root_id() != 0
    &&& rooted_as(g, event)
    &&& o.registered ==> f == o && !g.holds_thread()
    &&& !o.registered ==> g.holds_thread() && f.registered && f.scope_id == Some(g.root_id()) && f.spans.len() == 0
        && f.open.len() == 0
}

/// `g` started a trace with a wait and a settle span on the line that went
/// from `o` to `f`: the root is named `event`; on a free line a spawning
/// wait named `pending_event` is recorded, settle spans named
/// `settle_event` open under it at its end, and the thread is held exactly
/// when the settle scope opened; a busy line keeps its trace and gets a
/// plain span named `settle_event`.
pub open spec fn fine_trace_started(
    o: SpanLineView,
    f: SpanLineView,
    g: LocalGuard,
    event: u32,
    pending_event: u32,
    settle_event: u32,
) -> bool {
    &&& g.root_id() != 0
    &&& rooted_as(g, event)
    &&& o.registered ==> !g.holds_thread() && f.registered && f.scope_id == o.scope_id && f.spans.len()
        == o.spans.len() + 1 && f.spans.last().event == settle_event && f.spans.last().state == State::Local
    &&& !o.registered ==> (g.holds_thread() <==> f.registered) && (g.settle_wait() matches Some(w)
        && w.state == State::Spawning && w.event == pending_event && (g.settle_scope() matches Some(v) ==> opened_as(
        v,
        w.end_cycle,
        settle_event,
        State::Settle,
    ))) && (f.registered ==> f.spans.len() == 0 && f.open.len() == 0)
}

/// Starts a trace whose root span is named `event`, attached to the thread
/// when the thread is free. The thread's spans hang straight under the
/// root: unlike `trace_enable_fine`, no wait or settle span is recorded.
pub fn trace_enable(line: &mut SpanLine, event: u32) -> (r: (LocalGuard, Collector))
    requires
        old(line).wf(),
    ensures
        final(line).wf(),
        trace_started(old(line)@, final(line)@, r.0, event),
{
    let (scope, collector) = Scope::root(line, event);
    let guard = scope.try_attach(line);
    (LocalGuard { scope, guard, settle: None }, collector)
}

/// Starts a trace whose root span is named `event`, and resumes it on the
/// thread as a handle would: a spawning wait named `pending_event` under
/// the root, then a settle span named `settle_event` that the thread's
/// spans hang under. A thread that already has a trace gets a plain span
/// named `settle_event` there.
pub fn trace_enable_fine(line: &mut SpanLine, event: u32, pending_event: u32, settle_event: u32) -> (r: (
    LocalGuard,
    Collector,
))
    requires
        old(line).wf(),
    ensures
        final(line).wf(),
        fine_trace_started(old(line)@, final(line)@, r.0, event, pending_event, settle_event),
{
    let (scope, collector) = Scope::root(line, event);
    let mut handle = TraceHandle::from_scope(&scope, line, event, pending_event);
    let settle = match handle.trace_enable(line, settle_event) {
        Some(g) => Some((g, handle)),
        None => {
            let _ = handle.finish();
            None
        },
    };
    (LocalGuard { scope, guard: None, settle }, collector)
}

/// `trace_enable_fine` when `enable` holds; otherwise does nothing.
pub fn trace_may_enable_fine(
    enable: bool,
    line: &mut SpanLine,
    event: u32,
    pending_event: u32,
    settle_event: u32,
) -> (r: (Option<LocalGuard>, Option<Collector>))
    requires
        old(line).wf(),
    ensures
        final(line).wf(),
        enable <==> r.0 is Some,
        enable <==> r.1 is Some,
        !enable ==> final(line)@ == old(line)@,
        r.0 matches Some(g) ==> fine_trace_started(old(line)@, final(line)@, g, event, pending_event, settle_event),
{
    if enable {
        let (guard, collector) = trace_enable_fine(line, event, pending_event, settle_event);
        (Some(guard), Some(collector))
    } else {
        (None, None)
    }
}

/// Starts a trace when `enable` holds; otherwise does nothing.
pub fn trace_may_enable(enable: bool, line: &mut SpanLine, event: u32) -> (r: (Option<LocalGuard>, Option<Collector>))
    requires
        old(line).wf(),
    ensures
        final(line).wf(),
        enable <==> r.0 is Some,
        enable <==> r.1 is Some,
        !enable ==> final(line)@ == old(line)@,
        r.0 matches Some(g) ==> trace_started(old(line)@, final(line)@, g, event),
{
    if enable {
        let (guard, collector) = trace_enable(line, event);
        (Some(guard), Some(collector))
    } else {
        (None, None)
    }
}

/// Attaches `bytes` to the current span; dropped when no trace is active.
pub fn property(line: &mut SpanLine, bytes: &[u8])
    requires
        old(line).wf(),
    ensures
        final(line).wf(),
        ({
            let o = old(line)@;
            match current_parent(o) {
                Some(p) => if o.payload_len + bytes@.len() <= usize::MAX {
                    final(line)@.props == o.props.push((p, bytes@))
                } else {
                    final(line)@ == o
                },
                None => final(line)@ == o,
            }
        }),
{
    line.append_property(bytes);
}

/// Like `property`, with the bytes made by `f`, which runs only when a
/// trace is active.
pub fn property_closure<F: FnOnce() -> Vec<u8>>(line: &mut SpanLine, f: F)
    requires
        old(line).wf(),
        f.requires(()),
    ensures
        final(line).wf(),
        current_parent(old(line)@) is None ==> final(line)@ == old(line)@,
        current_parent(old(line)@) is Some ==> exists|b: Vec<u8>| #[trigger] f.ensures((), b) && {
            let o = old(line)@;
            if o.payload_len + b@.len() <= usize::MAX {
                final(line)@.props == o.props.push((current_parent(o)->Some_0, b@))
            } else {
                final(line)@ == o
            }
        },
{
    if line.current_parent_id().is_some() {
        let bytes = f();
        line.append_property(bytes.as_slice());
        assert(f.ensures((), bytes));
    }
}

/// Collects the spans of a thread that has no trace attached, for handing
/// to a scope later.
#[derive(Debug)]
pub struct LocalCollector {
    collected: bool,
}

impl LocalCollector {
    /// Starts collecting on a free thread.
    pub fn start(line: &mut SpanLine) -> (c: LocalCollector)
        requires
            old(line).wf(),
            !old(line)@.registered,
        ensures
            final(line).wf(),
            final(line)@.registered,
            final(line)@.scope_id is None,
    {
        line.register(Registration::LocalCollector);
        LocalCollector { collected: false }
    }

    /// Starts collecting unless the thread is occupied.
    pub fn try_start(line: &mut SpanLine) -> (c: Option<LocalCollector>)
        requires
            old(line).wf(),
        ensures
            final(line).wf(),
            old(line)@.registered <==> c is None,
            old(line)@.registered ==> final(line)@ == old(line)@,
            !old(line)@.registered ==> final(line)@.registered && final(line)@.scope_id is None,
    {
        if line.is_occupied() {
            None
        } else {
            Some(LocalCollector::start(line))
        }
    }

    /// Stops collecting without taking the spans: they are thrown away and
    /// the thread is freed.
    pub fn discard(self, line: &mut SpanLine)
        requires
            old(line).wf(),
        ensures
            final(line).wf(),
            (old(line)@.registered && old(line)@.scope_id is None) ==> !final(line)@.registered
                && final(line)@.spans.len() == 0 && final(line)@.props.len() == 0,
            !(old(line)@.registered && old(line)@.scope_id is None) ==> final(line)@ == old(line)@,
    {
        if line.is_occupied() && !line.has_scope() {
            let (_, _) = line.unregister(now());
        }
    }

    /// Takes the spans collected on the thread and frees it. Nothing is
    /// taken when a scope, not a local collector, holds the thread.
    pub fn collect(self, line: &mut SpanLine) -> (r: LocalSpans)
        requires
            old(line).wf(),
        ensures
            final(line).wf(),
            r.properties.wf(),
            (old(line)@.registered && old(line)@.scope_id is None) ==> !final(line)@.registered
                && is_drained_batch(r, old(line)@),
            !(old(line)@.registered && old(line)@.scope_id is None) ==> final(line)@ == old(line)@
                && r.spans@.len() == 0,
    {
        if line.is_occupied() && !line.has_scope() {
            let (spans, _) = line.unregister(now());
            spans
        } else {
            LocalSpans { spans: Vec::new(), properties: Properties::new(), end_time: now() }
        }
    }
}

} // verus!
