//! Scopes: spans whose lifetime a caller holds, reported straight to the
//! collectors of the traces they belong to.
use vstd::prelude::*;

use std::sync::atomic::AtomicBool;
use std::sync::Arc;

use crate::clock::{end_now, now, Cycle};
use crate::collection::{new_channel, Acquirer, LocalSpans, SpanCollection};
use crate::collector::Collector;
use crate::local::{current_parent, sealed, Registration, SpanLine, SpanLineView};
use crate::span::{RawSpan, State};

verus! {

/// The spans a live scope reports, one per trace it belongs to.
#[derive(Debug)]
pub struct ScopeInner {
    scope_id: u32,
    to_report: Vec<(RawSpan, Acquirer)>,
}

/// A span held open by its owner. An empty scope records nothing.
#[derive(Debug)]
pub struct Scope {
    inner: Option<ScopeInner>,
}

/// The id of a non-empty scope and the spans it will report.
pub struct ScopeView {
    pub scope_id: u32,
    pub spans: Seq<RawSpan>,
}

pub open spec fn first_of(entries: Seq<(RawSpan, Acquirer)>) -> Seq<RawSpan> {
    entries.map_values(|e: (RawSpan, Acquirer)| e.0)
}

impl View for Scope {
    type V = Option<ScopeView>;

    closed spec fn view(&self) -> Option<ScopeView> {
        match self.inner {
            Some(inner) => Some(ScopeView { scope_id: inner.scope_id, spans: first_of(inner.to_report@) }),
            None => None,
        }
    }
}

/// Every span of a scope is open, begun at `begin`, named `event`, of kind
/// `state`, and carries the scope's id.
pub open spec fn opened_as(v: ScopeView, begin: Cycle, event: u32, state: State) -> bool {
    forall|k: int|
        0 <= k < v.spans.len() ==> {
            let s = #[trigger] v.spans[k];
            &&& s.id == v.scope_id
            &&& s.begin_cycle == begin
            &&& s.end_cycle == 0
            &&& s.event == event
            &&& s.state == state
            &&& !s.is_spawn_span
            &&& s.descendant_count == 0
        }
}

/// The parent of each route of the non-empty `scopes`, in order: a scope's
/// id, once per trace it belongs to.
pub open spec fn merge_parents(scopes: Seq<&Scope>) -> Seq<u32>
    decreases scopes.len(),
{
    if scopes.len() == 0 {
        Seq::empty()
    } else {
        merge_parents(scopes.drop_last()) + match scopes.last()@ {
            Some(v) => Seq::new(v.spans.len(), |k: int| v.scope_id),
            None => Seq::<u32>::empty(),
        }
    }
}

/// `s` holds one span per live route among `parents`, under its parent,
/// all with one id and start, for some set of live routes.
pub open spec fn opened_over(s: Option<ScopeView>, parents: Seq<u32>, event: u32, state: State) -> bool {
    exists|live: Seq<bool>, id: u32, begin: Cycle|
        live.len() == parents.len() && s == #[trigger] scope_from(live_spans(parents, live, id, begin, event, state), id)
}

/// `id` is the id of one of the non-empty `scopes`.
pub open spec fn is_scope_among(scopes: Seq<&Scope>, id: u32) -> bool {
    exists|m: int| 0 <= m < scopes.len() && (#[trigger] scopes[m])@ is Some && id == scopes[m]@->Some_0.scope_id
}

/// The parent ids that `parents` name, in order.
pub open spec fn parent_ids(parents: Seq<(u32, Acquirer)>) -> Seq<u32> {
    parents.map_values(|p: (u32, Acquirer)| p.0)
}

/// A span opened at `begin` with id `id` under `parent`.
pub open spec fn opened_span(id: u32, parent: u32, begin: Cycle, event: u32, state: State) -> RawSpan {
    RawSpan {
        id,
        parent_id: parent,
        begin_cycle: begin,
        end_cycle: 0,
        event,
        state,
        is_spawn_span: false,
        descendant_count: 0,
    }
}

/// One span per route whose flag in `live` is set, in order, each under the
/// parent named for that route.
pub open spec fn live_spans(parents: Seq<u32>, live: Seq<bool>, id: u32, begin: Cycle, event: u32, state: State) -> Seq<RawSpan>
    decreases parents.len(),
{
    if parents.len() == 0 || live.len() == 0 {
        Seq::empty()
    } else {
        live_spans(parents.drop_last(), live.drop_last(), id, begin, event, state) + if live.last() {
            seq![opened_span(id, parents.last(), begin, event, state)]
        } else {
            Seq::<RawSpan>::empty()
        }
    }
}

/// Some route is live.
pub open spec fn any_live(live: Seq<bool>) -> bool {
    exists|i: int| 0 <= i < live.len() && live[i]
}

/// The scope holding `spans` under `id`, empty when there are none.
pub open spec fn scope_from(spans: Seq<RawSpan>, id: u32) -> Option<ScopeView> {
    if spans.len() == 0 {
        None
    } else {
        Some(ScopeView { scope_id: id, spans })
    }
}

proof fn lemma_live_spans(parents: Seq<u32>, live: Seq<bool>, id: u32, begin: Cycle, event: u32, state: State)
    requires
        parents.len() == live.len(),
    ensures
        live_spans(parents, live, id, begin, event, state).len() <= parents.len(),
        live_spans(parents, live, id, begin, event, state).len() > 0 <==> any_live(live),
    decreases parents.len(),
{
    if parents.len() > 0 {
        let pl = parents.drop_last();
        let ll = live.drop_last();
        lemma_live_spans(pl, ll, id, begin, event, state);
        if any_live(ll) {
            let i = choose|i: int| 0 <= i < ll.len() && ll[i];
            assert(live[i]);
        }
        if any_live(live) && !live.last() {
            let i = choose|i: int| 0 <= i < live.len() && live[i];
            assert(ll[i]);
        }
        if live.last() {
            assert(live[live.len() - 1]);
        }
    }
}

/// Opens one span per route whose flag in `live` is set, each under the
/// parent named for that route; a scope with no live route is empty.
pub(crate) fn open_scope_live(
    parents: &Vec<(u32, Acquirer)>,
    live: &Vec<bool>,
    scope_id: u32,
    begin: Cycle,
    event: u32,
    state: State,
) -> (s: Scope)
    requires
        live@.len() == parents@.len(),
    ensures
        s@ == scope_from(live_spans(parent_ids(parents@), live@, scope_id, begin, event, state), scope_id),
        s@ is Some <==> any_live(live@),
        s@ matches Some(v) ==> {
            &&& v.spans.len() <= parents@.len()
            &&& opened_as(v, begin, event, state)
            &&& forall|k: int| 0 <= k < v.spans.len() ==> is_parent_among(parents@, (#[trigger] v.spans[k]).parent_id)
        },
{
    let mut to_report: Vec<(RawSpan, Acquirer)> = Vec::new();
    let mut i: usize = 0;
    while i < parents.len()
        invariant
            i <= parents@.len(),
            live@.len() == parents@.len(),
            first_of(to_report@) == live_spans(
                parent_ids(parents@).take(i as int),
                live@.take(i as int),
                scope_id,
                begin,
                event,
                state,
            ),
            opened_as(ScopeView { scope_id, spans: first_of(to_report@) }, begin, event, state),
            forall|k: int| 0 <= k < first_of(to_report@).len() ==> is_parent_among(parents@, (#[trigger] first_of(to_report@)[k]).parent_id),
        decreases parents@.len() - i,
    {
        let ghost ids = parent_ids(parents@);
        assert(ids.take(i + 1).drop_last() =~= ids.take(i as int));
        assert(live@.take(i + 1).drop_last() =~= live@.take(i as int));
        assert(ids.take(i + 1).last() == parents@[i as int].0);
        let (parent_id, acq) = &parents[i];
        let ghost before = first_of(to_report@);
        if live[i] {
            let span = RawSpan::begin_with(scope_id, *parent_id, begin, event, state);
            to_report.push((span, acq.clone()));
            assert(first_of(to_report@) =~= before.push(span));
            assert(is_parent_among(parents@, span.parent_id)) by {
                assert(parents@[i as int].0 == span.parent_id);
            }
        } else {
            assert(before + Seq::<RawSpan>::empty() =~= before);
        }
        i = i + 1;
    }
    proof {
        assert(parent_ids(parents@).take(i as int) =~= parent_ids(parents@));
        assert(live@.take(i as int) =~= live@);
        lemma_live_spans(parent_ids(parents@), live@, scope_id, begin, event, state);
    }
    if to_report.len() == 0 {
        Scope { inner: None }
    } else {
        Scope { inner: Some(ScopeInner { scope_id, to_report }) }
    }
}

/// Opens one span per route in `parents` whose collector is still open;
/// which are open is read from their flags, so the contract says what
/// holds for some set of flags.
pub(crate) fn open_scope(parents: &Vec<(u32, Acquirer)>, scope_id: u32, begin: Cycle, event: u32, state: State) -> (s: Scope)
    ensures
        exists|live: Seq<bool>|
            live.len() == parents@.len() && s@ == #[trigger] scope_from(
                live_spans(parent_ids(parents@), live, scope_id, begin, event, state),
                scope_id,
            ),
        parents@.len() == 0 ==> s@ is None,
        s@ matches Some(v) ==> {
            &&& v.scope_id == scope_id
            &&& v.spans.len() > 0
            &&& v.spans.len() <= parents@.len()
            &&& opened_as(v, begin, event, state)
            &&& forall|k: int| 0 <= k < v.spans.len() ==> is_parent_among(parents@, (#[trigger] v.spans[k]).parent_id)
        },
{
    let mut live: Vec<bool> = Vec::new();
    let mut i: usize = 0;
    while i < parents.len()
        invariant
            i <= parents@.len(),
            live@.len() == i,
        decreases parents@.len() - i,
    {
        live.push(!parents[i].1.is_shutdown());
        i = i + 1;
    }
    let s = open_scope_live(parents, &live, scope_id, begin, event, state);
    proof {
        if parents@.len() == 0 {
            assert(!any_live(live@));
        }
    }
    s
}

/// `id` is the parent named by one of `parents`.
pub open spec fn is_parent_among(parents: Seq<(u32, Acquirer)>, id: u32) -> bool {
    exists|m: int| 0 <= m < parents.len() && (#[trigger] parents[m]).0 == id
}

/// A guard over a scope attached to a thread; finishing it hands the
/// thread's spans to the scope's collectors.
#[derive(Debug)]
pub struct LocalScopeGuard {
    attached: bool,
}

impl LocalScopeGuard {
    /// Whether the guard attached a scope (an empty scope attaches nothing).
    pub fn is_attached(&self) -> (r: bool)
        ensures
            r == self.attached_spec(),
    {
        self.attached
    }

    pub closed spec fn attached_spec(&self) -> bool {
        self.attached
    }

    /// Detaches the scope: the thread's spans go, as one batch under the
    /// scope, to each of its collectors, and the thread is free again.
    /// Returns the batch that was handed to the routes (each got a copy).
    pub fn finish(self, line: &mut SpanLine) -> (r: Option<SpanCollection>)
        requires
            old(line).wf(),
        ensures
            final(line).wf(),
            self.attached_spec() ==> !final(line)@.registered && final(line)@.spans.len() == 0
                && final(line)@.open.len() == 0,
            !self.attached_spec() ==> final(line)@ == old(line)@ && r is None,
            (self.attached_spec() && old(line)@.scope_id is Some) ==> (r matches Some(
                SpanCollection::LocalSpans { spans, parent_scope_id },
            ) && is_drained_batch(spans, old(line)@) && old(line)@.scope_id == Some(parent_scope_id)),
    {
        if self.attached {
            let (spans, registration) = line.unregister(now());
            match registration {
                Some(Registration::Scope { scope_id, acquirers }) => {
                    let msg = SpanCollection::LocalSpans { spans, parent_scope_id: scope_id };
                    submit_all(&acquirers, &msg);
                    Some(msg)
                },
                _ => None,
            }
        } else {
            None
        }
    }
}

/// `spans` is what a drain of the line `v` yields: its spans, the open ones
/// sealed, and its properties.
pub open spec fn is_drained_batch(spans: LocalSpans, v: SpanLineView) -> bool {
    &&& spans.spans@ == sealed(v.spans, v.open)
    &&& spans.properties.wf()
    &&& spans.properties.entries() == v.props
}

/// Hands `msg` to each collector in `acquirers`.
pub(crate) fn submit_all(acquirers: &Vec<Acquirer>, msg: &SpanCollection) {
    let mut i: usize = 0;
    while i < acquirers.len()
        decreases acquirers@.len() - i,
    {
        let _ = acquirers[i].submit(msg.clone());
        i = i + 1;
    }
}

/// The spans of a scope, each ended at `end`.
pub open spec fn ended_spans(s: Option<ScopeView>, end: Cycle) -> Seq<RawSpan> {
    match s {
        Some(v) => v.spans.map_values(|x: RawSpan| RawSpan { end_cycle: end, ..x }),
        None => Seq::empty(),
    }
}

impl Scope {
    /// The id of a non-empty scope.
    pub fn id(&self) -> (r: Option<u32>)
        ensures
            r == match self@ {
                Some(v) => Some(v.scope_id),
                None => None,
            },
    {
        match &self.inner {
            Some(inner) => Some(inner.scope_id),
            None => None,
        }
    }

    /// Starts a trace: its root scope, and the collector that gathers it.
    pub fn root(line: &mut SpanLine, event: u32) -> (r: (Scope, Collector))
        requires
            old(line).wf(),
        ensures
            final(line).wf(),
            final(line)@ == old(line)@,
            (r.0@ matches Some(v) && v.spans.len() == 1 && v.spans[0].parent_id == 0
                && v.spans[0].state == State::Root && v.spans[0].event == event
                && v.spans[0].end_cycle == 0 && v.scope_id != 0),
    {
        let (tx, rx) = new_channel();
        let closed = Arc::new(AtomicBool::new(false));
        let acquirer = Acquirer::new(tx, closed.clone());
        let scope_id = line.next_id();
        let span = RawSpan::begin_with(scope_id, 0, now(), event, State::Root);
        let to_report = vec![(span, acquirer)];
        let scope = Scope { inner: Some(ScopeInner { scope_id, to_report }) };
        assert(first_of(to_report@)[0] == span);
        (scope, Collector::new(rx, closed))
    }

    /// The routes of the scope's traces, one per span.
    pub(crate) fn acquirers(&self) -> (r: Vec<Acquirer>)
        ensures
            r@.len() == match self@ {
                Some(v) => v.spans.len(),
                None => 0,
            },
    {
        let mut acquirers: Vec<Acquirer> = Vec::new();
        if let Some(inner) = &self.inner {
            let mut i: usize = 0;
            while i < inner.to_report.len()
                invariant
                    i <= inner.to_report@.len(),
                    acquirers@.len() == i,
                decreases inner.to_report@.len() - i,
            {
                acquirers.push(inner.to_report[i].1.clone());
                i = i + 1;
            }
        }
        acquirers
    }

    /// A scope that records nothing.
    pub fn empty() -> (s: Scope)
        ensures
            s@ is None,
    {
        Scope { inner: None }
    }

    pub fn is_empty(&self) -> (r: bool)
        ensures
            r == self@ is None,
    {
        self.inner.is_none()
    }

    /// A scope under this one, in each of its traces still open.
    pub fn child(&self, line: &mut SpanLine, event: u32) -> (s: Scope)
        requires
            old(line).wf(),
        ensures
            final(line).wf(),
            final(line)@ == old(line)@,
            self@ is None ==> s@ is None,
            self@ matches Some(p) ==> opened_over(s@, Seq::new(p.spans.len(), |k: int| p.scope_id), event, State::Local),
            s@ matches Some(v) ==> {
                &&& v.scope_id != 0
                &&& v.scope_id == final(line).last_id()
                &&& v.scope_id != old(line).last_id()
                &&& self@ matches Some(p)
                &&& opened_as(v, v.spans[0].begin_cycle, event, State::Local)
                &&& forall|k: int| 0 <= k < v.spans.len() ==> #[trigger] v.spans[k].parent_id == p.scope_id
            },
    {
        let scopes: Vec<&Scope> = vec![self];
        let s = Scope::merge(&scopes, line, event);
        proof {
            assert(scopes@.drop_last() =~= Seq::<&Scope>::empty());
            assert(scopes@.last() == self);
            assert(merge_parents(Seq::<&Scope>::empty()) == Seq::<u32>::empty());
            if self@ is Some {
                let p = self@->Some_0;
                assert(merge_parents(scopes@) =~= Seq::new(p.spans.len(), |k: int| p.scope_id));
            }
            if s@ is Some {
                let v = s@->Some_0;
                assert forall|k: int| 0 <= k < v.spans.len() implies #[trigger] v.spans[k].parent_id == self@->Some_0.scope_id by {
                    let m = choose|m: int| 0 <= m < scopes@.len() && scopes@[m]@ is Some
                        && v.spans[k].parent_id == scopes@[m]@->Some_0.scope_id;
                    assert(scopes@[m] == self);
                }
            }
        }
        s
    }

    /// One scope under several: a span per trace of every non-empty scope,
    /// all with one id.
    pub fn merge(scopes: &Vec<&Scope>, line: &mut SpanLine, event: u32) -> (s: Scope)
        requires
            old(line).wf(),
        ensures
            final(line).wf(),
            final(line)@ == old(line)@,
            (forall|m: int| 0 <= m < scopes@.len() ==> (#[trigger] scopes@[m])@ is None) ==> s@ is None,
            opened_over(s@, merge_parents(scopes@), event, State::Local),
            s@ matches Some(v) ==> {
                &&& v.scope_id != 0
                &&& v.scope_id == final(line).last_id()
                &&& v.scope_id != old(line).last_id()
                &&& v.spans.len() > 0
                &&& opened_as(v, v.spans[0].begin_cycle, event, State::Local)
                &&& forall|k: int| 0 <= k < v.spans.len() ==> is_scope_among(scopes@, (#[trigger] v.spans[k]).parent_id)
            },
    {
        let mut parents: Vec<(u32, Acquirer)> = Vec::new();
        let mut i: usize = 0;
        while i < scopes.len()
            invariant
                i <= scopes@.len(),
                (forall|m: int| 0 <= m < i ==> (#[trigger] scopes@[m])@ is None) ==> parents@.len() == 0,
                forall|k: int| 0 <= k < parents@.len() ==> is_scope_among(scopes@, (#[trigger] parents@[k]).0),
                parent_ids(parents@) == merge_parents(scopes@.take(i as int)),
            decreases scopes@.len() - i,
        {
            let ghost before = parent_ids(parents@);
            assert(scopes@.take(i + 1).drop_last() =~= scopes@.take(i as int));
            assert(scopes@.take(i + 1).last() == scopes@[i as int]);
            match &scopes[i].inner {
                Some(inner) => {
                    let mut j: usize = 0;
                    while j < inner.to_report.len()
                        invariant
                            i < scopes@.len(),
                            scopes@[i as int]@ == Some(ScopeView { scope_id: inner.scope_id, spans: first_of(inner.to_report@) }),
                            j <= inner.to_report@.len(),
                            (forall|m: int| 0 <= m < i ==> (#[trigger] scopes@[m])@ is None) ==> parents@.len() == j,
                            forall|k: int| 0 <= k < parents@.len() ==> is_scope_among(scopes@, (#[trigger] parents@[k]).0),
                            parent_ids(parents@) == before + Seq::new(j as nat, |k: int| inner.scope_id),
                        decreases inner.to_report@.len() - j,
                    {
                        let ghost prev = parents@;
                        parents.push((inner.scope_id, inner.to_report[j].1.clone()));
                        assert(parent_ids(parents@) =~= parent_ids(prev).push(inner.scope_id));
                        assert(parent_ids(parents@) =~= before + Seq::new((j + 1) as nat, |k: int| inner.scope_id));
                        assert(parents@[parents@.len() - 1].0 == scopes@[i as int]@->Some_0.scope_id);
                        assert(is_scope_among(scopes@, parents@[parents@.len() - 1].0));
                        j = j + 1;
                    }
                    assert(Seq::new(j as nat, |k: int| inner.scope_id) =~= Seq::new(
                        first_of(inner.to_report@).len(),
                        |k: int| inner.scope_id,
                    ));
                },
                None => {
                    assert(parent_ids(parents@) =~= before + Seq::<u32>::empty());
                },
            }
            i = i + 1;
        }
        assert(scopes@.take(i as int) =~= scopes@);
        let id = line.next_id();
        let s = open_scope(&parents, id, now(), event, State::Local);
        proof {
            if s@ is Some {
                let v = s@->Some_0;
                assert forall|k: int| 0 <= k < v.spans.len() implies is_scope_among(scopes@, (#[trigger] v.spans[k]).parent_id) by {
                    let p = choose|p: int| 0 <= p < parents@.len() && (#[trigger] parents@[p]).0 == v.spans[k].parent_id;
                    assert(is_scope_among(scopes@, parents@[p].0));
                }
            }
        }
        s
    }

    /// Sends spans gathered elsewhere to this scope's collectors, as a
    /// batch under this scope.
    /// Returns the batch that was handed to the routes (each got a copy);
    /// an empty scope hands out nothing.
    pub fn submit_raw_spans(&self, spans: LocalSpans) -> (r: Option<SpanCollection>)
        ensures
            self@ is None ==> r is None,
            self@ matches Some(v) ==> r == Some(SpanCollection::LocalSpans { spans, parent_scope_id: v.scope_id }),
    {
        if let Some(inner) = &self.inner {
            let acquirers = self.acquirers();
            let msg = SpanCollection::LocalSpans { spans, parent_scope_id: inner.scope_id };
            submit_all(&acquirers, &msg);
            Some(msg)
        } else {
            None
        }
    }

    /// Attaches the scope to a free thread: spans opened on it go under the
    /// scope until the guard is finished.
    pub fn attach(&self, line: &mut SpanLine) -> (g: LocalScopeGuard)
        requires
            old(line).wf(),
            !old(line)@.registered,
        ensures
            final(line).wf(),
            g.attached_spec() == self@ is Some,
            self@ matches Some(v) ==> final(line)@.registered && final(line)@.scope_id == Some(v.scope_id)
                && final(line)@.spans.len() == 0 && final(line)@.open.len() == 0,
            self@ is None ==> final(line)@ == old(line)@,
    {
        match &self.inner {
            Some(inner) => {
                let mut acquirers: Vec<Acquirer> = Vec::new();
                let mut i: usize = 0;
                while i < inner.to_report.len()
                    decreases inner.to_report@.len() - i,
                {
                    acquirers.push(inner.to_report[i].1.clone());
                    i = i + 1;
                }
                line.register(Registration::Scope { scope_id: inner.scope_id, acquirers });
                LocalScopeGuard { attached: true }
            },
            None => LocalScopeGuard { attached: false },
        }
    }

    /// Attaches the scope unless the thread is already occupied.
    pub fn try_attach(&self, line: &mut SpanLine) -> (g: Option<LocalScopeGuard>)
        requires
            old(line).wf(),
        ensures
            final(line).wf(),
            old(line)@.registered ==> g is None && final(line)@ == old(line)@,
            !old(line)@.registered ==> (g matches Some(g) && g.attached_spec() == self@ is Some),
            !old(line)@.registered && self@ is Some ==> final(line)@.registered
                && final(line)@.scope_id == Some(self@->Some_0.scope_id) && final(line)@.spans.len() == 0
                && final(line)@.open.len() == 0,
    {
        if line.is_occupied() {
            None
        } else {
            Some(self.attach(line))
        }
    }

    /// A scope under the current span of the thread, reached through a
    /// spawn placeholder recorded on the thread. Empty when no scope is
    /// attached to the thread.
    pub fn child_from_local(line: &mut SpanLine, event: u32) -> (s: Scope)
        requires
            old(line).wf(),
        ensures
            final(line).wf(),
            old(line)@.scope_id is None ==> s@ is None && final(line)@ == old(line)@,
            old(line)@.scope_id is Some ==> final(line)@.spans.len() == old(line)@.spans.len() + 1 && opened_over(
                s@,
                Seq::new(old(line)@.routes, |k: int| final(line)@.spans.last().id),
                event,
                State::Local,
            ),
            s@ matches Some(v) ==> {
                let placeholder = final(line)@.spans.last();
                &&& final(line)@.spans == old(line)@.spans.push(placeholder)
                &&& placeholder.is_spawn_span
                &&& placeholder.parent_id == current_parent(old(line)@)->Some_0
                &&& v.scope_id != 0
                &&& v.scope_id == final(line).last_id()
                &&& v.scope_id != placeholder.id
                &&& opened_as(v, v.spans[0].begin_cycle, event, State::Local)
                &&& forall|k: int| 0 <= k < v.spans.len() ==> #[trigger] v.spans[k].parent_id == placeholder.id
            },
    {
        let t = now();
        match line.push_spawn_span(event, t) {
            Some((spawn_id, acquirers)) => {
                let mut parents: Vec<(u32, Acquirer)> = Vec::new();
                let mut i: usize = 0;
                while i < acquirers.len()
                    invariant
                        i <= acquirers@.len(),
                        forall|k: int| 0 <= k < parents@.len() ==> (#[trigger] parents@[k]).0 == spawn_id,
                        parent_ids(parents@) == Seq::new(i as nat, |k: int| spawn_id),
                    decreases acquirers@.len() - i,
                {
                    let ghost prev = parents@;
                    parents.push((spawn_id, acquirers[i].clone()));
                    assert(parent_ids(parents@) =~= parent_ids(prev).push(spawn_id));
                    assert(parent_ids(parents@) =~= Seq::new((i + 1) as nat, |k: int| spawn_id));
                    i = i + 1;
                }
                let id = line.next_id();
                let s = open_scope(&parents, id, t, event, State::Local);
                proof {
                    if s@ is Some {
                        let v = s@->Some_0;
                        assert forall|k: int| 0 <= k < v.spans.len() implies #[trigger] v.spans[k].parent_id == spawn_id by {
                            let p = choose|p: int| 0 <= p < parents@.len() && (#[trigger] parents@[p]).0 == v.spans[k].parent_id;
                        }
                    }
                }
                s
            },
            None => Scope { inner: None },
        }
    }

    /// Ends the scope: each of its spans is closed now and sent to its
    /// collector. Returns the spans sent, in route order.
    pub fn finish(self) -> (r: Vec<RawSpan>)
        ensures
            exists|end: Cycle| end > 0 && r@ == #[trigger] ended_spans(self@, end),
    {
        let end = end_now();
        let r = self.finish_at(end);
        assert(r@ == ended_spans(self@, end));
        r
    }

    /// Ends the scope at `end_cycle`: the `k`-th span goes, ended, to the
    /// `k`-th route. Returns the spans sent, in route order.
    pub fn finish_at(self, end_cycle: Cycle) -> (r: Vec<RawSpan>)
        ensures
            r@ == ended_spans(self@, end_cycle),
    {
        let mut r: Vec<RawSpan> = Vec::new();
        let ghost v = self@;
        if let Some(inner) = self.inner {
            let mut i: usize = 0;
            while i < inner.to_report.len()
                invariant
                    i <= inner.to_report@.len(),
                    v == Some(ScopeView { scope_id: inner.scope_id, spans: first_of(inner.to_report@) }),
                    r@ == ended_spans(v, end_cycle).take(i as int),
                decreases inner.to_report@.len() - i,
            {
                let (span, acq) = &inner.to_report[i];
                let mut s = *span;
                s.end_with(end_cycle);
                let _ = acq.submit(SpanCollection::ScopeSpan(s));
                r.push(s);
                i = i + 1;
                assert(r@ =~= ended_spans(v, end_cycle).take(i as int));
            }
            assert(ended_spans(v, end_cycle).take(i as int) =~= ended_spans(v, end_cycle));
        } else {
            assert(r@ =~= ended_spans(v, end_cycle));
        }
        r
    }
}

} // verus!
