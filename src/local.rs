//! The per-thread span line: the stack of open spans, the spans recorded so
//! far in the order they were opened, and their properties.
use vstd::prelude::*;

use crate::clock::Cycle;
use crate::collection::{Acquirer, LocalSpans};
use crate::properties::Properties;
use crate::span::{RawSpan, State};
use crate::span_id::{IdEpochs, IdGenerator};

verus! {

/// Whether index `i` is on the stack of open spans.
pub open spec fn is_open(open: Seq<usize>, i: int) -> bool {
    exists|k: int| 0 <= k < open.len() && open[k] == i
}

/// The last index of the subtree that starts at `i`.
pub open spec fn block_end(spans: Seq<RawSpan>, i: int) -> int {
    i + spans[i].descendant_count
}

/// The spans and the open stack describe properly nested scopes: the stack
/// lists open spans in the order they were opened, and every closed span
/// was closed after all the spans opened within it, which follow it in one
/// contiguous run.
pub open spec fn properly_nested(spans: Seq<RawSpan>, open: Seq<usize>) -> bool {
    &&& forall|k: int| 0 <= k < open.len() ==> #[trigger] open[k] < spans.len()
    &&& forall|k1: int, k2: int| 0 <= k1 < k2 < open.len() ==> #[trigger] open[k1] < #[trigger] open[k2]
    &&& forall|i: int|
        0 <= i < spans.len() && !is_open(open, i) ==> #[trigger] block_end(spans, i) < spans.len()
    &&& forall|i: int, j: int|
        0 <= i < j <= block_end(spans, i) && i < spans.len() && !is_open(open, i) ==> #[trigger] closed_within(spans, open, i, j)
}

/// Span `j`, inside the closed subtree of `i`, is closed and its own
/// subtree ends within that of `i`.
pub open spec fn closed_within(spans: Seq<RawSpan>, open: Seq<usize>, i: int, j: int) -> bool {
    !is_open(open, j) && block_end(spans, j) <= block_end(spans, i)
}

/// A span left open when its line is drained: its subtree runs to the end.
pub open spec fn seal(s: RawSpan, len: int, i: int) -> RawSpan {
    RawSpan { descendant_count: (len - i - 1) as usize, ..s }
}

/// The spans of a drained line: open ones sealed, the rest as they were.
pub open spec fn sealed(spans: Seq<RawSpan>, open: Seq<usize>) -> Seq<RawSpan> {
    Seq::new(spans.len(), |i: int| if is_open(open, i) {
        seal(spans[i], spans.len() as int, i)
    } else {
        spans[i]
    })
}

/// What a thread is recording for.
#[derive(Debug)]
pub enum Registration {
    /// A scope attached to the thread, with the routes to its collectors.
    Scope { scope_id: u32, acquirers: Vec<Acquirer> },
    /// A local collector that takes the spans itself.
    LocalCollector,
}

/// The plain values of a span line.
pub struct SpanLineView {
    pub spans: Seq<RawSpan>,
    pub open: Seq<usize>,
    pub props: Seq<(u32, Seq<u8>)>,
    pub scope_id: Option<u32>,
    pub registered: bool,
    pub payload_len: nat,
    /// How many traces the attached scope belongs to.
    pub routes: nat,
}

/// The id that new spans and properties go under: the innermost open span,
/// else the attached scope.
pub open spec fn current_parent(v: SpanLineView) -> Option<u32> {
    if v.open.len() > 0 {
        Some(v.spans[v.open.last() as int].id)
    } else {
        v.scope_id
    }
}

/// `f` is `o` after closing the span at `index` at `end`: when it is the
/// innermost open span it is popped, ended, and given every later span as
/// its subtree; otherwise nothing changes.
pub open spec fn closed_at(o: SpanLineView, f: SpanLineView, index: usize, end: Cycle) -> bool {
    if o.open.len() > 0 && o.open.last() == index {
        f == SpanLineView {
            open: o.open.drop_last(),
            spans: o.spans.update(
                index as int,
                RawSpan { end_cycle: end, descendant_count: (o.spans.len() - index - 1) as usize, ..o.spans[index as int] },
            ),
            ..o
        }
    } else {
        f == o
    }
}

/// One thread's recording state.
#[derive(Debug)]
pub struct SpanLine {
    ids: IdGenerator,
    spans: Vec<RawSpan>,
    open: Vec<usize>,
    properties: Properties,
    registration: Option<Registration>,
}

impl View for SpanLine {
    type V = SpanLineView;

    closed spec fn view(&self) -> SpanLineView {
        SpanLineView {
            spans: self.spans@,
            open: self.open@,
            props: self.properties.entries(),
            scope_id: match self.registration {
                Some(Registration::Scope { scope_id, .. }) => Some(scope_id),
                _ => None,
            },
            registered: self.registration is Some,
            payload_len: self.properties.payload_len(),
            routes: match self.registration {
                Some(Registration::Scope { acquirers, .. }) => acquirers@.len(),
                _ => 0,
            },
        }
    }
}

impl SpanLine {
    /// The line is consistent: spans properly nested, and empty whenever
    /// nothing is registered.
    pub closed spec fn wf(&self) -> bool {
        &&& self.ids.wf()
        &&& self.properties.wf()
        &&& properly_nested(self.spans@, self.open@)
        &&& self.registration is None ==> self.spans@.len() == 0 && self.open@.len() == 0
            && self.properties.entries().len() == 0
    }

    pub fn new(epochs: IdEpochs) -> (line: SpanLine)
        ensures
            line.wf(),
            !line@.registered,
            line@.spans.len() == 0,
            line@.open.len() == 0,
            line@.props.len() == 0,
            line@.payload_len == 0,
    {
        SpanLine {
            ids: IdGenerator::new(epochs),
            spans: Vec::new(),
            open: Vec::new(),
            properties: Properties::new(),
            registration: None,
        }
    }

    /// The id handed out last on this line.
    pub closed spec fn last_id(&self) -> int {
        self.ids.last_id()
    }

    /// A fresh span id: never 0, and never the id handed out just before.
    pub fn next_id(&mut self) -> (id: u32)
        requires
            old(self).wf(),
        ensures
            final(self).wf(),
            final(self)@ == old(self)@,
            id != 0,
            id != old(self).last_id(),
            final(self).last_id() == id,
    {
        self.ids.next_id()
    }

    /// Whether a scope or a local collector is registered on the thread.
    pub fn is_occupied(&self) -> (r: bool)
        ensures
            r == self@.registered,
    {
        self.registration.is_some()
    }

    /// The innermost open span or the attached scope.
    pub fn current_parent_id(&self) -> (r: Option<u32>)
        requires
            self.wf(),
        ensures
            r == current_parent(self@),
    {
        if self.open.len() > 0 {
            let top = self.open[self.open.len() - 1];
            Some(self.spans[top].id)
        } else {
            match &self.registration {
                Some(Registration::Scope { scope_id, .. }) => Some(*scope_id),
                _ => None,
            }
        }
    }

    /// Whether the thread records nothing and holds nothing.
    pub fn is_idle(&self) -> (r: bool)
        requires
            self.wf(),
        ensures
            r == (!self@.registered && self@.spans.len() == 0 && self@.open.len() == 0 && self@.props.len() == 0),
    {
        proof {
            if self.registration is None {
                assert(self@.props.len() == 0);
            }
        }
        self.registration.is_none() && self.spans.len() == 0 && self.open.len() == 0 && self.properties.len() == 0
    }

    /// Whether a scope is attached, rather than a local collector.
    pub fn has_scope(&self) -> (r: bool)
        ensures
            r == self@.scope_id is Some,
    {
        match &self.registration {
            Some(Registration::Scope { .. }) => true,
            _ => false,
        }
    }

    /// The routes of the attached scope, if a scope is attached.
    pub fn acquirers(&self) -> (r: Option<Vec<Acquirer>>)
        ensures
            r is Some <==> self@.scope_id is Some,
            r matches Some(a) ==> a@.len() == self@.routes,
    {
        match &self.registration {
            Some(Registration::Scope { acquirers, .. }) => Some(acquirers.clone()),
            _ => None,
        }
    }

    /// Registers `registration` on a free thread.
    pub fn register(&mut self, registration: Registration)
        requires
            old(self).wf(),
            !old(self)@.registered,
        ensures
            final(self).wf(),
            final(self)@.registered,
            final(self)@.spans.len() == 0,
            final(self)@.open.len() == 0,
            final(self)@.props.len() == 0,
            final(self)@.scope_id == match registration {
                Registration::Scope { scope_id, .. } => Some(scope_id),
                Registration::LocalCollector => None,
            },
            final(self)@.routes == match registration {
                Registration::Scope { acquirers, .. } => acquirers@.len(),
                Registration::LocalCollector => 0,
            },
    {
        self.registration = Some(registration);
    }

    /// Opens a span under the current parent; `None` when nothing is
    /// registered on the thread.
    pub fn start_span(&mut self, event: u32, begin_cycle: Cycle, state: State) -> (r: Option<usize>)
        requires
            old(self).wf(),
        ensures
            final(self).wf(),
            final(self)@.registered == old(self)@.registered,
            final(self)@.scope_id == old(self)@.scope_id,
            final(self)@.routes == old(self)@.routes,
            final(self)@.props == old(self)@.props,
            r is None <==> !old(self)@.registered,
            r is None ==> final(self)@ == old(self)@,
            r matches Some(index) ==> {
                let s = final(self)@.spans[index as int];
                &&& index == old(self)@.spans.len()
                &&& final(self)@.spans.len() == old(self)@.spans.len() + 1
                &&& final(self)@.spans.drop_last() == old(self)@.spans
                &&& final(self)@.open == old(self)@.open.push(index)
                &&& s.id != 0
                &&& s.parent_id == match current_parent(old(self)@) {
                    Some(p) => p,
                    None => 0,
                }
                &&& s.begin_cycle == begin_cycle
                &&& s.end_cycle == 0
                &&& s.event == event
                &&& s.state == state
                &&& !s.is_spawn_span
            },
    {
        if self.registration.is_none() {
            return None;
        }
        let parent_id = match self.current_parent_id() {
            Some(p) => p,
            None => 0,
        };
        let id = self.ids.next_id();
        let index = self.spans.len();
        let ghost old_spans = self.spans@;
        let ghost old_open = self.open@;
        self.spans.push(RawSpan::begin_with(id, parent_id, begin_cycle, event, state));
        self.open.push(index);
        proof {
            let spans = self.spans@;
            let open = self.open@;
            assert(spans.drop_last() =~= old_spans);
            assert forall|i: int| 0 <= i < spans.len() && !is_open(open, i) implies #[trigger] block_end(spans, i) < spans.len() by {
                assert(open[open.len() - 1] == index);
                assert(i != index);
                if is_open(old_open, i) {
                    let k = choose|k: int| 0 <= k < old_open.len() && old_open[k] == i;
                    assert(open[k] == i);
                }
                assert(block_end(old_spans, i) < old_spans.len());
            }
            assert forall|i: int, j: int|
                0 <= i < j <= block_end(spans, i) && i < spans.len() && !is_open(open, i) implies #[trigger] closed_within(spans, open, i, j) by {
                assert(open[open.len() - 1] == index);
                if is_open(old_open, i) {
                    let k = choose|k: int| 0 <= k < old_open.len() && old_open[k] == i;
                    assert(open[k] == i);
                }
                assert(spans[i] == old_spans[i]);
                assert(block_end(old_spans, i) < old_spans.len());
                assert(spans[j] == old_spans[j]);
                assert(closed_within(old_spans, old_open, i, j));
                if is_open(open, j) {
                    let k = choose|k: int| 0 <= k < open.len() && open[k] == j;
                    if k < old_open.len() {
                        assert(old_open[k] == j);
                    }
                }
            }
            assert forall|k1: int, k2: int| 0 <= k1 < k2 < open.len() implies #[trigger] open[k1] < #[trigger] open[k2] by {
                if k2 == open.len() - 1 {
                    assert(old_open[k1] < old_spans.len());
                } else {
                    assert(old_open[k1] < old_open[k2]);
                }
            }
            assert forall|k: int| 0 <= k < open.len() implies #[trigger] open[k] < spans.len() by {
                if k < open.len() - 1 {
                    assert(old_open[k] < old_spans.len());
                }
            }
            assert(properly_nested(spans, open));
        }
        Some(index)
    }

    /// Closes the innermost open span at `end_cycle` when it is the one at
    /// `index`: its subtree is every span opened after it. Any other index
    /// leaves the line as it is.
    pub fn finish_span(&mut self, index: usize, end_cycle: Cycle)
        requires
            old(self).wf(),
        ensures
            final(self).wf(),
            final(self)@.registered == old(self)@.registered,
            final(self)@.scope_id == old(self)@.scope_id,
            final(self)@.routes == old(self)@.routes,
            final(self)@.props == old(self)@.props,
            final(self)@.payload_len == old(self)@.payload_len,
            closed_at(old(self)@, final(self)@, index, end_cycle),
            ({
                let o = old(self)@;
                if o.open.len() > 0 && o.open.last() == index {
                    &&& final(self)@.open == o.open.drop_last()
                    &&& final(self)@.spans == o.spans.update(
                        index as int,
                        RawSpan {
                            end_cycle,
                            descendant_count: (o.spans.len() - index - 1) as usize,
                            ..o.spans[index as int]
                        },
                    )
                } else {
                    final(self)@ == o
                }
            }),
    {
        let n = self.open.len();
        if n == 0 || self.open[n - 1] != index {
            return;
        }
        let ghost old_spans = self.spans@;
        let ghost old_open = self.open@;
        let len = self.spans.len();
        let mut s = self.spans[index];
        s.end_cycle = end_cycle;
        s.descendant_count = len - index - 1;
        self.spans.set(index, s);
        self.open.pop();
        proof {
            let spans = self.spans@;
            let open = self.open@;
            assert(open =~= old_open.drop_last());
            assert forall|i: int| is_open(open, i) implies is_open(old_open, i) && i < index by {
                let k = choose|k: int| 0 <= k < open.len() && open[k] == i;
                assert(old_open[k] == i);
                assert(old_open[k] < old_open[n - 1]);
            }
            assert forall|i: int| 0 <= i < spans.len() && !is_open(open, i) implies #[trigger] block_end(spans, i) < spans.len() by {
                if i != index {
                    assert(!is_open(old_open, i)) by {
                        if is_open(old_open, i) {
                            let k = choose|k: int| 0 <= k < old_open.len() && old_open[k] == i;
                            if k == n - 1 {
                                assert(i == index);
                            } else {
                                assert(open[k] == i);
                            }
                        }
                    }
                    assert(block_end(old_spans, i) < old_spans.len());
                }
            }
            assert forall|i: int, j: int|
                0 <= i < j <= block_end(spans, i) && i < spans.len() && !is_open(open, i) implies #[trigger] closed_within(spans, open, i, j) by {
                if i != index {
                    assert(spans[i] == old_spans[i]);
                }
                assert(!is_open(open, j)) by {
                    if is_open(open, j) {
                        assert(is_open(old_open, j) && j < index);
                        if i != index {
                            assert(!is_open(old_open, i)) by {
                                if is_open(old_open, i) {
                                    let k = choose|k: int| 0 <= k < old_open.len() && old_open[k] == i;
                                    if k == n - 1 {
                                        assert(i == index);
                                    } else {
                                        assert(open[k] == i);
                                    }
                                }
                            }
                            assert(closed_within(old_spans, old_open, i, j));
                        }
                    }
                }
                if i == index {
                    assert(!is_open(old_open, j)) by {
                        if is_open(old_open, j) {
                            let k = choose|k: int| 0 <= k < old_open.len() && old_open[k] == j;
                            if k < n - 1 {
                                assert(old_open[k] < old_open[n - 1]);
                            }
                        }
                    }
                    assert(block_end(old_spans, j) < old_spans.len());
                } else {
                    assert(!is_open(old_open, i)) by {
                        if is_open(old_open, i) {
                            let k = choose|k: int| 0 <= k < old_open.len() && old_open[k] == i;
                            if k == n - 1 {
                                assert(i == index);
                            } else {
                                assert(open[k] == i);
                            }
                        }
                    }
                    assert(closed_within(old_spans, old_open, i, j));
                    assert(j != index) by {
                        if j == index {
                            assert(is_open(old_open, j)) by {
                                assert(old_open[n - 1] == index);
                            }
                        }
                    }
                }
            }
            assert forall|k1: int, k2: int| 0 <= k1 < k2 < open.len() implies #[trigger] open[k1] < #[trigger] open[k2] by {
                assert(old_open[k1] < old_open[k2]);
            }
            assert forall|k: int| 0 <= k < open.len() implies #[trigger] open[k] < spans.len() by {
                assert(old_open[k] < old_spans.len());
            }
            assert(properly_nested(spans, open));
        }
    }

    /// Appends `bytes` under the current parent. Dropped when there is no
    /// parent, or when the payload would outgrow `usize`.
    pub fn append_property(&mut self, bytes: &[u8])
        requires
            old(self).wf(),
        ensures
            final(self).wf(),
            ({
                let o = old(self)@;
                match current_parent(o) {
                    Some(p) => if o.payload_len + bytes@.len() <= usize::MAX {
                        final(self)@ == SpanLineView {
                            props: o.props.push((p, bytes@)),
                            payload_len: o.payload_len + bytes@.len(),
                            ..o
                        }
                    } else {
                        final(self)@ == o
                    },
                    None => final(self)@ == o,
                }
            }),
    {
        match self.current_parent_id() {
            Some(p) => {
                if bytes.len() <= usize::MAX - self.properties.payload_size() {
                    self.properties.push(p, bytes);
                }
            },
            None => {},
        }
    }

    /// Records a spawn placeholder under the current parent of an attached
    /// scope, begun and ended at `cycle`, and returns its id with the
    /// scope's routes. The collector puts children of the placeholder under
    /// the placeholder's own parent.
    pub fn push_spawn_span(&mut self, event: u32, cycle: Cycle) -> (r: Option<(u32, Vec<Acquirer>)>)
        requires
            old(self).wf(),
        ensures
            final(self).wf(),
            final(self)@.registered == old(self)@.registered,
            final(self)@.scope_id == old(self)@.scope_id,
            final(self)@.open == old(self)@.open,
            final(self)@.props == old(self)@.props,
            final(self)@.payload_len == old(self)@.payload_len,
            r is None <==> old(self)@.scope_id is None,
            r is None ==> final(self)@ == old(self)@,
            r matches Some((_, a)) ==> a@.len() == old(self)@.routes,
            r matches Some((id, _)) ==> final(self).last_id() == id,
            r matches Some((id, _)) ==> {
                &&& id != 0
                &&& final(self)@.spans == old(self)@.spans.push(
                    RawSpan {
                        id,
                        parent_id: current_parent(old(self)@)->Some_0,
                        begin_cycle: cycle,
                        end_cycle: cycle,
                        event,
                        state: State::Pending,
                        is_spawn_span: true,
                        descendant_count: 0,
                    },
                )
            },
    {
        let acquirers = match self.acquirers() {
            Some(a) => a,
            None => return None,
        };
        let parent_id = match self.current_parent_id() {
            Some(p) => p,
            None => 0,
        };
        let id = self.ids.next_id();
        let ghost old_spans = self.spans@;
        let ghost open = self.open@;
        self.spans.push(RawSpan {
            id,
            parent_id,
            begin_cycle: cycle,
            end_cycle: cycle,
            event,
            state: State::Pending,
            is_spawn_span: true,
            descendant_count: 0,
        });
        proof {
            let spans = self.spans@;
            assert forall|i: int| 0 <= i < spans.len() && !is_open(open, i) implies #[trigger] block_end(spans, i) < spans.len() by {
                if i < old_spans.len() {
                    assert(spans[i] == old_spans[i]);
                    assert(block_end(old_spans, i) < old_spans.len());
                } else {
                    assert(spans[i].descendant_count == 0);
                }
            }
            assert forall|i: int, j: int|
                0 <= i < j <= block_end(spans, i) && i < spans.len() && !is_open(open, i) implies #[trigger] closed_within(spans, open, i, j) by {
                assert(spans[i] == old_spans[i]);
                assert(block_end(old_spans, i) < old_spans.len());
                assert(spans[j] == old_spans[j]);
                assert(closed_within(old_spans, open, i, j));
            }
            assert forall|k: int| 0 <= k < open.len() implies #[trigger] open[k] < spans.len() by {
                assert(open[k] < old_spans.len());
            }
            assert(properly_nested(spans, open));
        }
        Some((id, acquirers))
    }

    /// Takes every recorded span and property and frees the thread. A span
    /// still open gets as subtree every span opened after it, and stays
    /// unfinished.
    pub fn unregister(&mut self, end_time: Cycle) -> (r: (LocalSpans, Option<Registration>))
        requires
            old(self).wf(),
        ensures
            final(self).wf(),
            !final(self)@.registered,
            final(self)@.spans.len() == 0,
            final(self)@.open.len() == 0,
            final(self)@.props.len() == 0,
            r.0.properties.wf(),
            r.0.properties.entries() == old(self)@.props,
            r.0.end_time == end_time,
            r.0.spans@ == sealed(old(self)@.spans, old(self)@.open),
            (r.1 is Some) == old(self)@.registered,
            r.1 matches Some(Registration::Scope { scope_id, .. }) ==> old(self)@.scope_id == Some(scope_id),
            old(self)@.scope_id is Some ==> (r.1 matches Some(Registration::Scope { .. })),
    {
        let ghost old_spans = self.spans@;
        let ghost open = self.open@;
        let len = self.spans.len();
        let mut k: usize = 0;
        while k < self.open.len()
            invariant
                self.open@ == open,
                self.spans@.len() == len == old_spans.len(),
                old(self).wf(),
                self.ids == old(self).ids,
                self.properties == old(self).properties,
                self.registration == old(self).registration,
                properly_nested(old_spans, open),
                k <= open.len(),
                forall|i: int|
                    0 <= i < len ==> #[trigger] self.spans@[i] == if is_open(open.take(k as int), i) {
                        seal(old_spans[i], len as int, i)
                    } else {
                        old_spans[i]
                    },
            decreases open.len() - k,
        {
            let idx = self.open[k];
            let mut s = self.spans[idx];
            s.descendant_count = len - idx - 1;
            let ghost before = self.spans@;
            self.spans.set(idx, s);
            proof {
                assert(!is_open(open.take(k as int), idx as int)) by {
                    if is_open(open.take(k as int), idx as int) {
                        let k2 = choose|k2: int| 0 <= k2 < open.take(k as int).len() && #[trigger] open.take(k as int)[k2] == idx;
                        assert(open[k2] < open[k as int]);
                    }
                }
                assert forall|i: int| 0 <= i < len implies #[trigger] self.spans@[i] == if is_open(open.take(k + 1), i) {
                    seal(old_spans[i], len as int, i)
                } else {
                    old_spans[i]
                } by {
                    if is_open(open.take(k as int), i) {
                        let k2 = choose|k2: int| 0 <= k2 < open.take(k as int).len() && #[trigger] open.take(k as int)[k2] == i;
                        assert(open.take(k + 1)[k2] == i);
                    }
                    if is_open(open.take(k + 1), i) && i != idx {
                        let k2 = choose|k2: int| 0 <= k2 < open.take(k + 1).len() && #[trigger] open.take(k + 1)[k2] == i;
                        assert(open.take(k as int)[k2] == i);
                    }
                    if i == idx {
                        assert(open.take(k + 1)[k as int] == i);
                    }
                }
            }
            k = k + 1;
        }
        let mut spans: Vec<RawSpan> = Vec::new();
        std::mem::swap(&mut spans, &mut self.spans);
        let mut properties = Properties::new();
        std::mem::swap(&mut properties, &mut self.properties);
        self.open = Vec::new();
        let registration = self.registration.take();
        proof {
            assert(open.take(k as int) =~= open);
            assert(spans@ =~= sealed(old_spans, open));
        }
        (LocalSpans { spans, properties, end_time }, registration)
    }
}

/// Spans close in post-order of their opening: a span can close only as
/// the innermost open span, and then every span opened after it has
/// already closed; `finish_span` makes exactly those spans its subtree.
pub proof fn lemma_close_after_descendants(line: &SpanLine, index: usize)
    requires
        line.wf(),
        line@.open.len() > 0,
        line@.open.last() == index,
    ensures
        forall|j: int| index < j < line@.spans.len() ==> !is_open(line@.open, j),
{
    let open = line@.open;
    assert forall|j: int| index < j < line@.spans.len() implies !is_open(open, j) by {
        if is_open(open, j) {
            let k = choose|k: int| 0 <= k < open.len() && open[k] == j;
            if k < open.len() - 1 {
                assert(open[k] < open[open.len() - 1]);
            }
        }
    }
}

} // verus!
