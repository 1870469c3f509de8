//! Span records: the raw form written by producers and the finished form
//! that the collector hands out.
use vstd::prelude::*;

use crate::clock::{unix_time_of, cycle_to_unix_time_ns, Anchor, Cycle};

verus! {

/// What a span stands for in a trace.
#[derive(Clone, Copy, Debug, PartialEq, Eq, Structural)]
pub enum State {
    /// The top-level scope of a trace.
    Root,
    /// A scope nested in the same thread or task.
    Local,
    /// The wait between a handle's creation and its first attachment.
    Spawning,
    /// The wait between two attachments of one handle.
    Scheduling,
    /// The first span opened after a handle is attached.
    Settle,
    /// A placeholder for a handle's lifetime; its children are re-parented.
    Pending,
}

/// A span as producers record it. `end_cycle == 0` marks it unfinished.
#[derive(Clone, Copy, Debug, PartialEq, Eq, Structural)]
pub struct RawSpan {
    pub id: u32,
    pub parent_id: u32,
    pub begin_cycle: Cycle,
    pub end_cycle: Cycle,
    pub event: u32,
    pub state: State,
    /// Set on placeholders that the collector resolves and never emits.
    pub is_spawn_span: bool,
    /// How many spans right after this one in its batch are nested in it.
    pub descendant_count: usize,
}

/// A finished span, timed in Unix nanoseconds.
#[derive(Clone, Debug)]
pub struct Span {
    pub id: u32,
    pub parent_id: u32,
    pub begin_unix_time_ns: u64,
    pub duration_ns: u64,
    pub event: u32,
    pub state: State,
    pub properties: Vec<Vec<u8>>,
}

/// The plain values of a `Span`, properties as byte sequences.
pub struct SpanView {
    pub id: u32,
    pub parent_id: u32,
    pub begin_unix_time_ns: u64,
    pub duration_ns: u64,
    pub event: u32,
    pub state: State,
    pub properties: Seq<Seq<u8>>,
}

impl View for Span {
    type V = SpanView;

    open spec fn view(&self) -> SpanView {
        SpanView {
            id: self.id,
            parent_id: self.parent_id,
            begin_unix_time_ns: self.begin_unix_time_ns,
            duration_ns: self.duration_ns,
            event: self.event,
            state: self.state,
            properties: self.properties@.map_values(|p: Vec<u8>| p@),
        }
    }
}

pub open spec fn saturating_sub(a: u64, b: u64) -> u64 {
    if a >= b { (a - b) as u64 } else { 0 }
}

/// The timing of `raw` in Unix time: its begin, and the time from begin to
/// end (0 where the end converts to an earlier time).
pub open spec fn begin_ns_of(raw: RawSpan, anchor: Anchor) -> u64 {
    unix_time_of(raw.begin_cycle, anchor)
}

pub open spec fn duration_ns_of(raw: RawSpan, anchor: Anchor) -> u64 {
    saturating_sub(unix_time_of(raw.end_cycle, anchor), unix_time_of(raw.begin_cycle, anchor))
}

/// `s` is `raw` finished through `anchor`, carrying `props`.
pub open spec fn is_built_from(s: SpanView, raw: RawSpan, anchor: Anchor, props: Seq<Seq<u8>>) -> bool {
    &&& s.id == raw.id
    &&& s.parent_id == raw.parent_id
    &&& s.begin_unix_time_ns == begin_ns_of(raw, anchor)
    &&& s.duration_ns == duration_ns_of(raw, anchor)
    &&& s.event == raw.event
    &&& s.state == raw.state
    &&& s.properties == props
}

impl RawSpan {
    /// An open span: begun at `begin_cycle`, not yet ended.
    pub fn begin_with(id: u32, parent_id: u32, begin_cycle: Cycle, event: u32, state: State) -> (r: RawSpan)
        ensures
            r == (RawSpan {
                id,
                parent_id,
                begin_cycle,
                end_cycle: 0,
                event,
                state,
                is_spawn_span: false,
                descendant_count: 0,
            }),
    {
        RawSpan { id, parent_id, begin_cycle, end_cycle: 0, event, state, is_spawn_span: false, descendant_count: 0 }
    }

    /// Records the end of the span.
    pub fn end_with(&mut self, end_cycle: Cycle)
        ensures
            *final(self) == (RawSpan { end_cycle, ..*old(self) }),
    {
        self.end_cycle = end_cycle;
    }

    /// Finishes the span through `anchor`, with no properties.
    pub fn build_span(&self, anchor: Anchor) -> (s: Span)
        requires
            anchor.wf(),
        ensures
            is_built_from(s@, *self, anchor, Seq::empty()),
    {
        let properties: Vec<Vec<u8>> = Vec::new();
        assert(properties@.map_values(|p: Vec<u8>| p@) =~= Seq::<Seq<u8>>::empty());
        self.build_span_with(anchor, properties)
    }

    /// Finishes the span through `anchor`, carrying `properties`.
    pub fn build_span_with(&self, anchor: Anchor, properties: Vec<Vec<u8>>) -> (s: Span)
        requires
            anchor.wf(),
        ensures
            is_built_from(s@, *self, anchor, properties@.map_values(|p: Vec<u8>| p@)),
    {
        let begin_unix_time_ns = cycle_to_unix_time_ns(self.begin_cycle, anchor);
        let end_unix_time_ns = cycle_to_unix_time_ns(self.end_cycle, anchor);
        let duration_ns = if end_unix_time_ns >= begin_unix_time_ns {
            end_unix_time_ns - begin_unix_time_ns
        } else {
            0
        };
        Span {
            id: self.id,
            parent_id: self.parent_id,
            begin_unix_time_ns,
            duration_ns,
            event: self.event,
            state: self.state,
            properties,
        }
    }
}

/// Where a finished span ends, in Unix nanoseconds.
pub open spec fn end_ns(s: SpanView) -> int {
    s.begin_unix_time_ns + s.duration_ns
}

/// The children lie in order inside the parent: the first begins no
/// earlier than the parent, each begins no earlier than the one before it
/// ends, and the last ends no later than the parent.
pub open spec fn laid_out_within(parent: SpanView, children: Seq<SpanView>) -> bool {
    &&& children.len() > 0 ==> children[0].begin_unix_time_ns >= parent.begin_unix_time_ns
    &&& children.len() > 0 ==> end_ns(children.last()) <= end_ns(parent)
    &&& forall|k: int| 0 < k < children.len() ==> #[trigger] children[k].begin_unix_time_ns >= end_ns(children[k - 1])
}

/// The sum of the durations of `spans`.
pub open spec fn total_duration(spans: Seq<SpanView>) -> int
    decreases spans.len(),
{
    if spans.len() == 0 {
        0
    } else {
        total_duration(spans.drop_last()) + spans.last().duration_ns
    }
}

proof fn lemma_total_within_run(children: Seq<SpanView>)
    requires
        children.len() > 0,
        forall|k: int| 0 < k < children.len() ==> #[trigger] children[k].begin_unix_time_ns >= end_ns(children[k - 1]),
    ensures
        total_duration(children) <= end_ns(children.last()) - children[0].begin_unix_time_ns,
    decreases children.len(),
{
    if children.len() > 1 {
        let front = children.drop_last();
        assert forall|k: int| 0 < k < front.len() implies #[trigger] front[k].begin_unix_time_ns >= end_ns(front[k - 1]) by {
            assert(front[k] == children[k] && front[k - 1] == children[k - 1]);
        }
        lemma_total_within_run(front);
        assert(children[children.len() - 1].begin_unix_time_ns >= end_ns(children[children.len() - 2]));
        assert(front.last() == children[children.len() - 2]);
        assert(front[0] == children[0]);
    } else {
        assert(children.drop_last().len() == 0);
        assert(total_duration(children.drop_last()) == 0);
    }
}

/// Children that lie in order inside their parent last no longer, in sum,
/// than the parent does.
pub proof fn lemma_children_fit_in_parent(parent: SpanView, children: Seq<SpanView>)
    requires
        laid_out_within(parent, children),
    ensures
        total_duration(children) <= parent.duration_ns,
{
    if children.len() > 0 {
        lemma_total_within_run(children);
    }
}

} // verus!
